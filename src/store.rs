//! The image store: every slot, sharing one memory budget.
//!
//! The store charges the budget for what its slots hold, evicts by circular
//! distance from the current position, and frees room for an imminent insert.
use vstd::prelude::*;

use crate::config::QualityTier;
use crate::slot::{is_upgrade, next_generation, ImageData, ImageMeta, ImageSlot};
use std::path::PathBuf;
use std::sync::Arc;

verus! {

/// Memory budget: a fixed total and the bytes charged against it.
pub struct MemoryBudget {
    total: usize,
    used: usize,
}

impl MemoryBudget {
    #[verifier::type_invariant]
    spec fn within_total(&self) -> bool {
        self.used <= self.total
    }

    /// Total capacity in bytes.
    pub closed spec fn spec_total(&self) -> nat {
        self.total as nat
    }

    /// Bytes charged.
    pub closed spec fn spec_used(&self) -> nat {
        self.used as nat
    }

    /// Bytes still free.
    pub open spec fn spec_available(&self) -> int {
        self.spec_total() - self.spec_used()
    }

    /// A budget of `total` bytes with nothing charged.
    pub fn new(total: usize) -> (r: Self)
        ensures
            r.spec_total() == total,
            r.spec_used() == 0,
    {
        MemoryBudget { total, used: 0 }
    }

    /// Total capacity in bytes.
    pub fn total(&self) -> (r: usize)
        ensures
            r == self.spec_total(),
    {
        self.total
    }

    /// Bytes charged; never more than the total.
    pub fn used(&self) -> (r: usize)
        ensures
            r == self.spec_used(),
            r <= self.spec_total(),
    {
        proof {
            use_type_invariant(self);
        }
        self.used
    }

    /// Bytes still free.
    pub fn available(&self) -> (r: usize)
        ensures
            r == self.spec_available(),
            self.spec_used() <= self.spec_total(),
    {
        proof {
            use_type_invariant(self);
        }
        self.total - self.used
    }

    /// Charges `bytes` when they fit in what is free; otherwise changes nothing.
    pub fn try_allocate(&mut self, bytes: usize) -> (r: bool)
        ensures
            r == (old(self).spec_used() + bytes <= old(self).spec_total()),
            final(self).spec_total() == old(self).spec_total(),
            final(self).spec_used() == if r {
                old(self).spec_used() + bytes
            } else {
                old(self).spec_used() as int
            },
            final(self).spec_used() <= final(self).spec_total(),
    {
        proof {
            use_type_invariant(&*self);
        }
        if bytes > self.total - self.used {
            false
        } else {
            self.used = self.used + bytes;
            true
        }
    }

    /// Gives back `bytes` that were charged before.
    pub fn release(&mut self, bytes: usize)
        requires
            bytes <= old(self).spec_used(),
        ensures
            final(self).spec_total() == old(self).spec_total(),
            final(self).spec_used() == old(self).spec_used() - bytes,
            final(self).spec_used() <= final(self).spec_total(),
    {
        proof {
            use_type_invariant(&*self);
        }
        self.used = self.used - bytes;
    }
}

/// Shorter of the two ways round a circle of `total` positions from `a` to `b`.
pub open spec fn circ_dist(a: int, b: int, total: int) -> int {
    let d = if a >= b {
        a - b
    } else {
        b - a
    };
    if d <= total - d {
        d
    } else {
        total - d
    }
}

/// Circular distance is symmetric, zero exactly between equal positions, and
/// the shorter of the direct gap and the gap the other way round.
pub proof fn lemma_circular_distance(a: int, b: int, total: int)
    requires
        0 <= a < total,
        0 <= b < total,
    ensures
        circ_dist(a, b, total) == circ_dist(b, a, total),
        circ_dist(a, b, total) == 0 <==> a == b,
        circ_dist(a, b, total) == vstd::math::min(
            vstd::math::abs(a - b) as int,
            total - vstd::math::abs(a - b),
        ),
        0 <= circ_dist(a, b, total) <= total / 2,
{
}

/// Shortest distance between two positions in a circular list.
pub fn circular_distance(a: usize, b: usize, total: usize) -> (r: usize)
    requires
        total == 0 || (a < total && b < total),
    ensures
        total == 0 ==> r == 0,
        total > 0 ==> r == circ_dist(a as int, b as int, total as int),
{
    if total == 0 {
        return 0;
    }
    let forward = if a >= b {
        a - b
    } else {
        total - b + a
    };
    let backward = if b >= a {
        b - a
    } else {
        total - a + b
    };
    if forward <= backward {
        forward
    } else {
        backward
    }
}

/// `(a + b) mod total`, for `a, b < total`.
pub(crate) fn add_mod(a: usize, b: usize, total: usize) -> (r: usize)
    requires
        a < total,
        b < total,
    ensures
        r == (a + b) % (total as int),
        r < total,
{
    if a >= total - b {
        let r = a - (total - b);
        proof {
            vstd::arithmetic::div_mod::lemma_fundamental_div_mod_converse(a + b, total as int, 1, r as int);
        }
        r
    } else {
        proof {
            vstd::arithmetic::div_mod::lemma_fundamental_div_mod_converse(a + b, total as int, 0, (a + b) as int);
        }
        a + b
    }
}

/// `(a - b) mod total`, for `a, b < total`.
pub(crate) fn sub_mod(a: usize, b: usize, total: usize) -> (r: usize)
    requires
        a < total,
        b < total,
    ensures
        r == (a - b) % (total as int),
        r < total,
{
    if a >= b {
        proof {
            vstd::arithmetic::div_mod::lemma_fundamental_div_mod_converse(a - b, total as int, 0, (a - b) as int);
        }
        a - b
    } else {
        let r = total - (b - a);
        proof {
            vstd::arithmetic::div_mod::lemma_fundamental_div_mod_converse(a - b, total as int, -1, r as int);
        }
        r
    }
}

/// The positions at distance `dist` from `center`, ahead first; one entry
/// when both ways meet.
pub open spec fn ring_at(center: int, total: int, dist: int) -> Seq<(usize, usize)> {
    let ahead = (center + dist) % total;
    let behind = (center - dist) % total;
    if dist == 0 || ahead == behind {
        seq![(ahead as usize, dist as usize)]
    } else {
        seq![(ahead as usize, dist as usize), (behind as usize, dist as usize)]
    }
}

/// Every (index, distance) pair around `center` out to `range`, by distance.
pub open spec fn around(center: int, total: int, range: nat) -> Seq<(usize, usize)>
    decreases range,
{
    if range == 0 {
        ring_at(center, total, 0)
    } else {
        around(center, total, (range - 1) as nat) + ring_at(center, total, range as int)
    }
}

/// Indices around `center` out to `range`, as (index, distance) pairs,
/// starting from distance 0.
pub fn indices_around(center: usize, total: usize, range: usize) -> (r: Vec<(usize, usize)>)
    requires
        total > 0,
    ensures
        r@ == around(center as int, total as int, range as nat),
{
    let c = center % total;
    assert(c as int == center as int % total as int);
    let mut out: Vec<(usize, usize)> = Vec::new();
    out.push((c, 0));
    assert(out@ =~= around(center as int, total as int, 0));
    let mut dist: usize = 0;
    while dist < range
        invariant
            dist <= range,
            total > 0,
            c == center as int % total as int,
            out@ == around(center as int, total as int, dist as nat),
        decreases range - dist,
    {
        dist = dist + 1;
        let o = dist % total;
        let ahead = add_mod(c, o, total);
        let behind = sub_mod(c, o, total);
        proof {
            let ci = center as int;
            let ti = total as int;
            let di = dist as int;
            vstd::arithmetic::div_mod::lemma_add_mod_noop(ci, di, ti);
            vstd::arithmetic::div_mod::lemma_sub_mod_noop(ci, di, ti);
            assert((ci + di) % ti == ahead);
            assert((ci - di) % ti == behind);
        }
        let ghost before = out@;
        if ahead == behind {
            out.push((ahead, dist));
        } else {
            out.push((ahead, dist));
            out.push((behind, dist));
        }
        assert(out@ =~= before + ring_at(center as int, total as int, dist as int));
    }
    out
}

/// Bytes held by the slots of `s` whose positions satisfy `p`.
pub open spec fn mem_where(s: Seq<ImageSlot>, p: spec_fn(int) -> bool) -> nat
    decreases s.len(),
{
    if s.len() == 0 {
        0
    } else {
        mem_where(s.drop_last(), p) + (if p(s.len() - 1) {
            s.last().memory_of()
        } else {
            0
        })
    }
}

/// Bytes held by all slots of `s`.
pub open spec fn total_memory(s: Seq<ImageSlot>) -> nat {
    mem_where(s, |i: int| true)
}

/// Number of slots of `s` that hold data.
pub open spec fn count_held(s: Seq<ImageSlot>) -> nat
    decreases s.len(),
{
    if s.len() == 0 {
        0
    } else {
        count_held(s.drop_last()) + (if s.last().held() is Some {
            1nat
        } else {
            0
        })
    }
}

proof fn lemma_mem_where_update(s: Seq<ImageSlot>, p: spec_fn(int) -> bool, j: int, x: ImageSlot)
    requires
        0 <= j < s.len(),
    ensures
        mem_where(s.update(j, x), p) + (if p(j) {
            s[j].memory_of()
        } else {
            0
        }) == mem_where(s, p) + (if p(j) {
            x.memory_of()
        } else {
            0
        }),
    decreases s.len(),
{
    let t = s.update(j, x);
    if j == s.len() - 1 {
        assert(t.drop_last() =~= s.drop_last());
    } else {
        assert(t.drop_last() =~= s.drop_last().update(j, x));
        lemma_mem_where_update(s.drop_last(), p, j, x);
    }
}

proof fn lemma_mem_where_ext(s: Seq<ImageSlot>, p: spec_fn(int) -> bool, q: spec_fn(int) -> bool)
    requires
        forall|i: int| 0 <= i < s.len() ==> #[trigger] p(i) == q(i),
    ensures
        mem_where(s, p) == mem_where(s, q),
    decreases s.len(),
{
    if s.len() > 0 {
        lemma_mem_where_ext(s.drop_last(), p, q);
    }
}

proof fn lemma_mem_where_add(s: Seq<ImageSlot>, p: spec_fn(int) -> bool, q: spec_fn(int) -> bool, j: int)
    requires
        0 <= j < s.len(),
        !p(j),
        forall|i: int| 0 <= i < s.len() ==> #[trigger] q(i) == (p(i) || i == j),
    ensures
        mem_where(s, q) == mem_where(s, p) + s[j].memory_of(),
    decreases s.len(),
{
    if j == s.len() - 1 {
        lemma_mem_where_ext(s.drop_last(), p, q);
    } else {
        lemma_mem_where_add(s.drop_last(), p, q, j);
    }
}

proof fn lemma_mem_where_prefix(s: Seq<ImageSlot>, p: spec_fn(int) -> bool, i: int)
    requires
        0 <= i < s.len(),
    ensures
        mem_where(s.subrange(0, i + 1), p) == mem_where(s.subrange(0, i), p) + (if p(i) {
            s[i].memory_of()
        } else {
            0
        }),
{
    assert(s.subrange(0, i + 1).drop_last() =~= s.subrange(0, i));
}

proof fn lemma_mem_where_le(s: Seq<ImageSlot>, p: spec_fn(int) -> bool, q: spec_fn(int) -> bool)
    requires
        forall|i: int| 0 <= i < s.len() && #[trigger] p(i) ==> q(i),
    ensures
        mem_where(s, p) <= mem_where(s, q),
    decreases s.len(),
{
    if s.len() > 0 {
        lemma_mem_where_le(s.drop_last(), p, q);
    }
}

proof fn lemma_count_update(s: Seq<ImageSlot>, j: int, x: ImageSlot)
    requires
        0 <= j < s.len(),
        s[j].held() is Some,
        x.held() is None,
    ensures
        count_held(s.update(j, x)) + 1 == count_held(s),
    decreases s.len(),
{
    let t = s.update(j, x);
    if j == s.len() - 1 {
        assert(t.drop_last() =~= s.drop_last());
    } else {
        assert(t.drop_last() =~= s.drop_last().update(j, x));
        lemma_count_update(s.drop_last(), j, x);
    }
}

/// `new` is `old` emptied by `clear`.
pub open spec fn cleared_from(old: ImageSlot, new: ImageSlot) -> bool {
    &&& new.held() is None
    &&& new.meta_of() == old.meta_of()
    &&& new.spec_generation() == next_generation(old.spec_generation())
}

/// Slot `i` held data in `o` and was emptied on the way to `f`.
pub open spec fn evicted(o: Seq<ImageSlot>, f: Seq<ImageSlot>, i: int) -> bool {
    o[i].held() is Some && f[i].held() is None
}

/// Eviction order from `current`: slot `i` goes before slot `j` when it is
/// further away, or as far and at a lower index.
pub open spec fn evicts_before(total: int, current: int, i: int, j: int) -> bool {
    circ_dist(i, current, total) > circ_dist(j, current, total) || (circ_dist(i, current, total)
        == circ_dist(j, current, total) && i < j)
}

/// What `insert(index, data)` does to store `o`, giving `f` and `r`: with no
/// slots, nothing. Otherwise, for the slot at `index` modulo the length, `r`
/// tells whether the budget covers the growth (`data`'s size over what the slot
/// holds) and `data` raises the quality held. When it does, the slot holds
/// `data` and the budget is charged the net change; when it does not, nothing
/// changes, the budget included.
pub open spec fn inserted(o: ImageStore, f: ImageStore, index: usize, data: Arc<ImageData>, r: bool) -> bool {
    &&& f.spec_budget().spec_total() == o.spec_budget().spec_total()
    &&& o@.len() == 0 ==> !r && f@ == o@ && f.spec_budget() == o.spec_budget()
    &&& o@.len() > 0 ==> {
        let i = index as int % o@.len() as int;
        let s = o@[i];
        let old_mem = s.memory_of() as int;
        let new_mem = data.pixels@.len() as int;
        let fits = new_mem <= old_mem || o.spec_budget().spec_used() + (new_mem - old_mem)
            <= o.spec_budget().spec_total();
        &&& r == (fits && is_upgrade(s.quality_of(), data.quality))
        &&& r ==> {
            &&& f@ == o@.update(i, f@[i])
            &&& f@[i].held() == Some(data)
            &&& f@[i].meta_of() == s.meta_of()
            &&& f@[i].spec_generation() == next_generation(s.spec_generation())
            &&& f.spec_budget().spec_used() == o.spec_budget().spec_used() + new_mem - old_mem
        }
        &&& !r ==> f@ == o@ && f.spec_budget().spec_used() == o.spec_budget().spec_used()
    }
}

/// What `evict_far(current, keep_range)` does to store `o`, giving `f` and
/// `r`: every non-empty slot further than `keep_range` from `current` is
/// emptied, the others are kept, and the bytes they held, `r`, go back to the
/// budget.
pub open spec fn far_evicted(o: ImageStore, f: ImageStore, current: usize, keep_range: usize, r: usize) -> bool {
    let n = o@.len() as int;
    &&& f@.len() == n
    &&& forall|i: int|
        0 <= i < n ==> if circ_dist(i, current as int, n) > keep_range && (#[trigger] o@[i]).held() is Some {
            cleared_from(o@[i], f@[i])
        } else {
            f@[i] == o@[i]
        }
    &&& forall|i: int|
        0 <= i < n && circ_dist(i, current as int, n) > keep_range ==> (#[trigger] f@[i]).held() is None
    &&& r == mem_where(o@, |i: int| circ_dist(i, current as int, n) > keep_range)
    &&& f.spec_budget().spec_used() == o.spec_budget().spec_used() - r
    &&& f.spec_budget().spec_total() == o.spec_budget().spec_total()
}

/// What `make_room(needed, current)` does to store `o`, giving `f` and `r`.
/// When `needed` bytes are free, nothing. Otherwise non-empty slots are
/// emptied in eviction order (furthest from `current` first, ties by lower
/// index), and eviction stops as soon as `needed` bytes are free or nothing is
/// left. The bytes freed, `r`, go back to the budget.
pub open spec fn room_made(o: ImageStore, f: ImageStore, needed: usize, current: usize, r: usize) -> bool {
    let n = o@.len() as int;
    let b0 = o.spec_budget();
    let b1 = f.spec_budget();
    &&& f@.len() == n
    &&& b1.spec_total() == b0.spec_total()
    &&& b0.spec_available() >= needed ==> r == 0 && f@ == o@ && b1 == b0
    &&& forall|i: int|
        0 <= i < n ==> if evicted(o@, f@, i) {
            cleared_from(#[trigger] o@[i], f@[i])
        } else {
            f@[i] == o@[i]
        }
    &&& r == mem_where(o@, |i: int| evicted(o@, f@, i))
    &&& b1.spec_used() == b0.spec_used() - r
    // furthest first: everything evicted goes before every non-empty slot kept
    &&& forall|i: int, j: int|
        0 <= i < n && 0 <= j < n && #[trigger] evicted(o@, f@, i) && (#[trigger] f@[j]).held() is Some
            ==> evicts_before(n, current as int, i, j)
    // stops once enough is free, or when nothing is left
    &&& b1.spec_available() >= needed || forall|j: int| 0 <= j < n ==> (#[trigger] f@[j]).held() is None
    // each eviction was needed: before it, less than `needed` was free
    &&& forall|e: int|
        0 <= e < n && #[trigger] evicted(o@, f@, e) ==> b0.spec_total() - (b0.spec_used() - mem_where(
            o@,
            |i: int| evicted(o@, f@, i) && evicts_before(n, current as int, i, e),
        )) < needed
}

/// A refused `insert` leaves the store as it was: the slots, and the bytes
/// charged to the budget.
pub proof fn lemma_refused_insert_changes_nothing(o: ImageStore, f: ImageStore, index: usize, data: Arc<ImageData>)
    requires
        inserted(o, f, index, data, false),
    ensures
        f@ == o@,
        f.spec_budget().spec_used() == o.spec_budget().spec_used(),
{
}

/// After `evict_far(current, keep_range)` no non-empty slot is further than
/// `keep_range` from `current`, and the bytes charged drop by exactly what the
/// emptied slots held.
pub proof fn lemma_evict_far_leaves_nothing_far(o: ImageStore, f: ImageStore, current: usize, keep_range: usize, r: usize)
    requires
        far_evicted(o, f, current, keep_range, r),
    ensures
        forall|i: int|
            0 <= i < f@.len() && (#[trigger] f@[i]).held() is Some ==> circ_dist(i, current as int, f@.len() as int)
                <= keep_range,
        r == mem_where(o@, |i: int| evicted(o@, f@, i)),
        f.spec_budget().spec_used() == o.spec_budget().spec_used() - r,
{
    let n = o@.len() as int;
    let far = |i: int| circ_dist(i, current as int, n) > keep_range;
    let gone = |i: int| evicted(o@, f@, i);
    assert forall|i: int| 0 <= i < n && #[trigger] far(i) != gone(i) implies o@[i].memory_of() == 0 by {
        if o@[i].held() is Some {
            if far(i) {
                assert(cleared_from(o@[i], f@[i]));
            } else {
                assert(f@[i] == o@[i]);
            }
        }
    }
    lemma_mem_where_same_memory(o@, far, gone);
}

/// `make_room(needed, current)` evicts the furthest non-empty slots first and
/// stops as soon as `needed` bytes are free: each slot it emptied was further
/// (or as far, at a lower index) than every non-empty slot it kept, and before
/// each eviction less than `needed` was free.
pub proof fn lemma_make_room_furthest_first(o: ImageStore, f: ImageStore, needed: usize, current: usize, r: usize)
    requires
        room_made(o, f, needed, current, r),
    ensures
        forall|i: int, j: int|
            0 <= i < o@.len() && 0 <= j < o@.len() && #[trigger] evicted(o@, f@, i) && (#[trigger] f@[j]).held() is Some
                ==> evicts_before(o@.len() as int, current as int, i, j),
        forall|e: int|
            0 <= e < o@.len() && #[trigger] evicted(o@, f@, e) ==> o.spec_budget().spec_total() - (
            o.spec_budget().spec_used() - mem_where(
                o@,
                |i: int| evicted(o@, f@, i) && evicts_before(o@.len() as int, current as int, i, e),
            )) < needed,
        f.spec_budget().spec_available() >= needed || forall|j: int|
            0 <= j < f@.len() ==> (#[trigger] f@[j]).held() is None,
{
}

/// The image store: all slots and the shared memory budget.
pub struct ImageStore {
    slots: Vec<ImageSlot>,
    budget: MemoryBudget,
}

impl View for ImageStore {
    type V = Seq<ImageSlot>;

    closed spec fn view(&self) -> Seq<ImageSlot> {
        self.slots@
    }
}

impl ImageStore {
    /// Well-formed: the budget is charged at least what the slots hold.
    pub closed spec fn wf(&self) -> bool {
        total_memory(self.slots@) <= self.budget.spec_used()
    }

    /// The store's memory budget.
    pub closed spec fn spec_budget(&self) -> MemoryBudget {
        self.budget
    }

    /// A store of empty slots, one per path, with unknown dimensions.
    pub fn new(paths: Vec<PathBuf>, budget: MemoryBudget) -> (r: Self)
        ensures
            r@.len() == paths@.len(),
            forall|i: int|
                0 <= i < paths@.len() ==> {
                    &&& (#[trigger] r@[i]).held() is None
                    &&& r@[i].spec_generation() == 0
                    &&& r@[i].meta_of().path == paths@[i]
                    &&& r@[i].meta_of().original_width == 0
                    &&& r@[i].meta_of().original_height == 0
                },
            r.spec_budget() == budget,
            r.wf(),
    {
        let n = paths.len();
        let ghost ps = paths@;
        let mut paths = paths;
        // Take the paths from the back, then put them back in order.
        let mut reversed: Vec<ImageMeta> = Vec::new();
        while paths.len() > 0
            invariant
                paths@ == ps.subrange(0, paths@.len() as int),
                reversed@.len() + paths@.len() == n,
                n == ps.len(),
                forall|k: int|
                    0 <= k < reversed@.len() ==> {
                        &&& (#[trigger] reversed@[k]).path == ps[n - 1 - k]
                        &&& reversed@[k].original_width == 0
                        &&& reversed@[k].original_height == 0
                    },
            decreases paths@.len(),
        {
            let path = paths.pop().unwrap();
            reversed.push(ImageMeta::new(path, 0, 0));
        }
        let mut metas: Vec<ImageMeta> = Vec::new();
        while reversed.len() > 0
            invariant
                reversed@.len() + metas@.len() == n,
                n == ps.len(),
                forall|k: int|
                    0 <= k < reversed@.len() ==> {
                        &&& (#[trigger] reversed@[k]).path == ps[n - 1 - k]
                        &&& reversed@[k].original_width == 0
                        &&& reversed@[k].original_height == 0
                    },
                forall|k: int|
                    0 <= k < metas@.len() ==> {
                        &&& (#[trigger] metas@[k]).path == ps[k]
                        &&& metas@[k].original_width == 0
                        &&& metas@[k].original_height == 0
                    },
            decreases reversed@.len(),
        {
            let m = reversed.pop().unwrap();
            metas.push(m);
        }
        Self::with_metadata(metas, budget)
    }

    /// A store of empty slots with the given metadata.
    pub fn with_metadata(metas: Vec<ImageMeta>, budget: MemoryBudget) -> (r: Self)
        ensures
            r@.len() == metas@.len(),
            forall|i: int|
                0 <= i < metas@.len() ==> (#[trigger] r@[i]).held() is None && r@[i].spec_generation()
                    == 0 && r@[i].meta_of() == metas@[i],
            r.spec_budget() == budget,
            r.wf(),
    {
        let n = metas.len();
        let ghost ms = metas@;
        let mut metas = metas;
        let mut reversed: Vec<ImageSlot> = Vec::new();
        while metas.len() > 0
            invariant
                metas@ == ms.subrange(0, metas@.len() as int),
                reversed@.len() + metas@.len() == n,
                n == ms.len(),
                forall|k: int|
                    0 <= k < reversed@.len() ==> (#[trigger] reversed@[k]).held() is None
                        && reversed@[k].spec_generation() == 0 && reversed@[k].meta_of() == ms[n - 1 - k],
            decreases metas@.len(),
        {
            let m = metas.pop().unwrap();
            reversed.push(ImageSlot::new(m));
        }
        let mut slots: Vec<ImageSlot> = Vec::new();
        while reversed.len() > 0
            invariant
                reversed@.len() + slots@.len() == n,
                n == ms.len(),
                forall|k: int|
                    0 <= k < reversed@.len() ==> (#[trigger] reversed@[k]).held() is None
                        && reversed@[k].spec_generation() == 0 && reversed@[k].meta_of() == ms[n - 1 - k],
                forall|k: int|
                    0 <= k < slots@.len() ==> (#[trigger] slots@[k]).held() is None
                        && slots@[k].spec_generation() == 0 && slots@[k].meta_of() == ms[k],
                total_memory(slots@) == 0,
            decreases reversed@.len(),
        {
            let s = reversed.pop().unwrap();
            proof {
                assert((slots@.push(s)).drop_last() =~= slots@);
            }
            slots.push(s);
        }
        let r = ImageStore { slots, budget };
        proof {
            use_type_invariant(&r.budget);
        }
        r
    }

    /// Number of images.
    pub fn len(&self) -> (r: usize)
        ensures
            r == self@.len(),
    {
        self.slots.len()
    }

    /// Whether the store has no images.
    pub fn is_empty(&self) -> (r: bool)
        ensures
            r == (self@.len() == 0),
    {
        self.slots.len() == 0
    }

    /// The slot at `index`, taken modulo the number of images.
    pub fn get(&self, index: usize) -> (r: Option<&ImageSlot>)
        ensures
            self@.len() == 0 ==> r is None,
            self@.len() > 0 ==> (r matches Some(s) && *s == self@[index as int % self@.len() as int]),
    {
        if self.slots.len() == 0 {
            None
        } else {
            Some(&self.slots[index % self.slots.len()])
        }
    }

    /// The slot at `index`, which must be in range.
    pub fn slot(&self, index: usize) -> (r: &ImageSlot)
        requires
            index < self@.len(),
        ensures
            *r == self@[index as int],
    {
        &self.slots[index]
    }

    /// The memory budget.
    pub fn budget(&self) -> (r: &MemoryBudget)
        ensures
            *r == self.spec_budget(),
    {
        &self.budget
    }

    /// The data at `index` (modulo the number of images), if any.
    pub fn read(&self, index: usize) -> (r: Option<Arc<ImageData>>)
        ensures
            self@.len() == 0 ==> r is None,
            self@.len() > 0 ==> r == self@[index as int % self@.len() as int].held(),
    {
        match self.get(index) {
            Some(s) => s.read(),
            None => None,
        }
    }

    /// Quality held at `index` (modulo the number of images), if any.
    pub fn quality_at(&self, index: usize) -> (r: Option<QualityTier>)
        ensures
            self@.len() == 0 ==> r is None,
            self@.len() > 0 ==> r == self@[index as int % self@.len() as int].quality_of(),
    {
        match self.get(index) {
            Some(s) => s.current_quality(),
            None => None,
        }
    }

    /// Installs `data` at `index` (modulo the number of images) when the
    /// budget covers the growth and it raises the quality held; the budget is
    /// charged the net change. On a refusal nothing changes, budget included.
    pub fn insert(&mut self, index: usize, data: Arc<ImageData>) -> (r: bool)
        requires
            old(self).wf(),
        ensures
            final(self).wf(),
            inserted(*old(self), *final(self), index, data, r),
    {
        let n = self.slots.len();
        if n == 0 {
            return false;
        }
        let i = index % n;
        let ghost o = self.slots@;
        let new_size = data.memory_size();
        let old_size = self.slots[i].memory_used();
        let net_increase: usize = if new_size > old_size {
            new_size - old_size
        } else {
            0
        };
        if net_increase > 0 && !self.budget.try_allocate(net_increase) {
            return false;
        }
        let accepted = self.slots[i].upgrade(data);
        proof {
            lemma_mem_where_update(o, |k: int| true, i as int, self.slots@[i as int]);
        }
        if accepted {
            if old_size > new_size {
                self.budget.release(old_size - new_size);
            }
            true
        } else {
            if net_increase > 0 {
                self.budget.release(net_increase);
            }
            assert(self.slots@ =~= o);
            false
        }
    }

    /// Empties every slot further than `keep_range` from `current` and gives
    /// its bytes back to the budget. Returns the bytes freed.
    pub fn evict_far(&mut self, current: usize, keep_range: usize) -> (r: usize)
        requires
            old(self).wf(),
            old(self)@.len() == 0 || current < old(self)@.len(),
        ensures
            final(self).wf(),
            far_evicted(*old(self), *final(self), current, keep_range, r),
    {
        let total = self.slots.len();
        let ghost o = self.slots@;
        let ghost used0 = self.budget.spec_used();
        let ghost far = |i: int| circ_dist(i, current as int, total as int) > keep_range;
        if total == 0 {
            return 0;
        }
        let mut freed: usize = 0;
        let mut idx: usize = 0;
        proof {
            lemma_mem_where_le(o, far, |i: int| true);
            assert(o.subrange(0, 0) =~= Seq::<ImageSlot>::empty());
        }
        while idx < total
            invariant
                idx <= total,
                total == o.len(),
                current < total,
                self.slots@.len() == total,
                far == (|i: int| circ_dist(i, current as int, total as int) > keep_range),
                forall|k: int| idx <= k < total ==> #[trigger] self.slots@[k] == o[k],
                forall|k: int|
                    0 <= k < idx ==> if far(k) && (#[trigger] o[k]).held() is Some {
                        cleared_from(o[k], self.slots@[k])
                    } else {
                        self.slots@[k] == o[k]
                    },
                freed == mem_where(o.subrange(0, idx as int), far),
                self.budget.spec_used() == used0 - freed,
                self.budget.spec_total() == old(self).spec_budget().spec_total(),
                total_memory(self.slots@) <= self.budget.spec_used(),
                mem_where(o, far) <= used0,
                used0 <= usize::MAX,
            decreases total - idx,
        {
            let dist = circular_distance(idx, current, total);
            proof {
                lemma_mem_where_prefix(o, far, idx as int);
            }
            if dist > keep_range && !self.slots[idx].is_empty() {
                let mem = self.slots[idx].memory_used();
                let ghost before = self.slots@;
                self.slots[idx].clear();
                proof {
                    assert(self.slots@ =~= before.update(idx as int, self.slots@[idx as int]));
                    lemma_mem_where_update(before, |k: int| true, idx as int, self.slots@[idx as int]);
                    assert(mem <= self.budget.spec_used());
                }
                self.budget.release(mem);
                freed = freed + mem;
            } else {
                proof {
                    if far(idx as int) {
                        assert(o[idx as int].memory_of() == 0);
                    }
                }
            }
            idx = idx + 1;
        }
        proof {
            assert(o.subrange(0, total as int) =~= o);
            lemma_mem_where_ext(o, far, |i: int| circ_dist(i, current as int, o.len() as int) > keep_range);
            assert forall|i: int|
                0 <= i < total && circ_dist(i, current as int, total as int) > keep_range implies (
                #[trigger] self.slots@[i]).held() is None by {
                if o[i].held() is Some {
                    assert(cleared_from(o[i], self.slots@[i]));
                } else {
                    assert(self.slots@[i] == o[i]);
                }
            }
        }
        freed
    }

    /// The non-empty slot that `make_room` evicts next, if any.
    fn furthest_held(&self, current: usize) -> (r: Option<usize>)
        requires
            current < self@.len(),
        ensures
            r is None ==> forall|k: int| 0 <= k < self@.len() ==> (#[trigger] self@[k]).held() is None,
            r matches Some(j) ==> {
                &&& j < self@.len()
                &&& self@[j as int].held() is Some
                &&& forall|k: int|
                    0 <= k < self@.len() && k != j && (#[trigger] self@[k]).held() is Some
                        ==> evicts_before(self@.len() as int, current as int, j as int, k)
            },
    {
        let total = self.slots.len();
        let mut best: Option<usize> = None;
        let mut best_dist: usize = 0;
        let mut idx: usize = 0;
        while idx < total
            invariant
                idx <= total,
                total == self@.len(),
                current < total,
                best is None ==> forall|k: int| 0 <= k < idx ==> (#[trigger] self@[k]).held() is None,
                best matches Some(j) ==> {
                    &&& j < idx
                    &&& self@[j as int].held() is Some
                    &&& best_dist == circ_dist(j as int, current as int, total as int)
                    &&& forall|k: int|
                        0 <= k < idx && k != j && (#[trigger] self@[k]).held() is Some
                            ==> evicts_before(total as int, current as int, j as int, k)
                },
            decreases total - idx,
        {
            if !self.slots[idx].is_empty() {
                let dist = circular_distance(idx, current, total);
                match best {
                    None => {
                        best = Some(idx);
                        best_dist = dist;
                    },
                    Some(_) => {
                        if dist > best_dist {
                            best = Some(idx);
                            best_dist = dist;
                        }
                    },
                }
            }
            idx = idx + 1;
        }
        best
    }

    /// When less than `needed` bytes are free, empties non-empty slots, the
    /// furthest from `current` first (ties: lower index first), and stops as
    /// soon as `needed` bytes are free or nothing is left. Returns the bytes freed.
    pub fn make_room(&mut self, needed: usize, current: usize) -> (r: usize)
        requires
            old(self).wf(),
            old(self)@.len() == 0 || current < old(self)@.len(),
        ensures
            final(self).wf(),
            room_made(*old(self), *final(self), needed, current, r),
    {
        if self.budget.available() >= needed {
            proof {
                lemma_mem_where_ext(self.slots@, |i: int| evicted(self.slots@, self.slots@, i), |i: int| false);
                lemma_no_memory(self.slots@);
            }
            return 0;
        }
        let total = self.slots.len();
        if total == 0 {
            proof {
                assert(mem_where(self.slots@, |i: int| evicted(self.slots@, self.slots@, i)) == 0);
            }
            return 0;
        }
        let ghost o = self.slots@;
        let ghost used0 = self.budget.spec_used();
        let ghost total0 = self.budget.spec_total();
        let mut freed: usize = 0;
        proof {
            lemma_mem_where_ext(o, |i: int| evicted(o, o, i), |i: int| false);
            lemma_no_memory(o);
        }
        loop
            invariant
                total == o.len(),
                current < total,
                self.slots@.len() == total,
                used0 == old(self).spec_budget().spec_used(),
                total0 == old(self).spec_budget().spec_total(),
                self.budget.spec_total() == total0,
                self.budget.spec_used() == used0 - freed,
                total_memory(self.slots@) <= self.budget.spec_used(),
                forall|i: int|
                    0 <= i < total ==> if evicted(o, self.slots@, i) {
                        cleared_from(#[trigger] o[i], self.slots@[i])
                    } else {
                        self.slots@[i] == o[i]
                    },
                freed == mem_where(o, |i: int| evicted(o, self.slots@, i)),
                forall|i: int, j: int|
                    0 <= i < total && 0 <= j < total && #[trigger] evicted(o, self.slots@, i) && (
                    #[trigger] self.slots@[j]).held() is Some ==> evicts_before(
                        total as int,
                        current as int,
                        i,
                        j,
                    ),
                forall|e: int|
                    0 <= e < total && #[trigger] evicted(o, self.slots@, e) ==> total0 - (used0
                        - mem_where(
                        o,
                        |i: int| evicted(o, self.slots@, i) && evicts_before(total as int, current as int, i, e),
                    )) < needed,
            ensures
                self.budget.spec_available() >= needed || forall|j: int|
                    0 <= j < total ==> (#[trigger] self.slots@[j]).held() is None,
            decreases count_held(self.slots@),
        {
            if self.budget.available() >= needed {
                break;
            }
            let next = self.furthest_held(current);
            match next {
                None => {
                    break;
                },
                Some(j) => {
                    let ghost s0 = self.slots@;
                    let ghost freed0 = freed as int;
                    let mem = self.slots[j].memory_used();
                    self.slots[j].clear();
                    let ghost s1 = self.slots@;
                    proof {
                        assert(s1 =~= s0.update(j as int, s1[j as int]));
                        lemma_mem_where_update(s0, |k: int| true, j as int, s1[j as int]);
                        lemma_count_update(s0, j as int, s1[j as int]);
                        let ti = total as int;
                        let ci = current as int;
                        // the evicted set grows by `j`
                        lemma_mem_where_add(
                            o,
                            |i: int| evicted(o, s0, i),
                            |i: int| evicted(o, s1, i),
                            j as int,
                        );
                        assert(o[j as int] == s0[j as int]);
                        // what went before `j` is exactly what was evicted so far
                        lemma_mem_where_ext(
                            o,
                            |i: int| evicted(o, s1, i) && evicts_before(ti, ci, i, j as int),
                            |i: int| evicted(o, s0, i),
                        );
                        assert forall|e: int|
                            0 <= e < total && #[trigger] evicted(o, s1, e) && e != j implies
                            mem_where(o, |i: int| evicted(o, s1, i) && evicts_before(ti, ci, i, e))
                                == mem_where(o, |i: int| evicted(o, s0, i) && evicts_before(ti, ci, i, e))
                            by {
                            assert(evicted(o, s0, e));
                            assert(evicts_before(ti, ci, e, j as int));
                            lemma_mem_where_ext(
                                o,
                                |i: int| evicted(o, s1, i) && evicts_before(ti, ci, i, e),
                                |i: int| evicted(o, s0, i) && evicts_before(ti, ci, i, e),
                            );
                        }
                    }
                    self.budget.release(mem);
                    freed = freed + mem;
                },
            }
        }
        freed
    }

    /// The slots, in index order.
    pub fn iter(&self) -> (r: &[ImageSlot])
        ensures
            r@ == self@,
    {
        self.slots.as_slice()
    }

    /// The slots with their indices, in index order.
    pub fn iter_enumerated(&self) -> (r: Vec<(usize, &ImageSlot)>)
        ensures
            r@.len() == self@.len(),
            forall|i: int| 0 <= i < r@.len() ==> (#[trigger] r@[i]).0 == i && *r@[i].1 == self@[i],
    {
        let mut out: Vec<(usize, &ImageSlot)> = Vec::new();
        let mut idx: usize = 0;
        while idx < self.slots.len()
            invariant
                idx <= self@.len(),
                out@.len() == idx,
                forall|i: int| 0 <= i < idx ==> (#[trigger] out@[i]).0 == i && *out@[i].1 == self@[i],
            decreases self@.len() - idx,
        {
            out.push((idx, &self.slots[idx]));
            idx = idx + 1;
        }
        out
    }

    /// Bytes held by all slots.
    pub fn total_memory_used(&self) -> (r: usize)
        requires
            self.wf(),
        ensures
            r == total_memory(self@),
    {
        proof {
            use_type_invariant(&self.budget);
        }
        let mut sum: usize = 0;
        let mut idx: usize = 0;
        while idx < self.slots.len()
            invariant
                idx <= self@.len(),
                sum == mem_where(self@.subrange(0, idx as int), |i: int| true),
                total_memory(self@) <= self.budget.spec_used(),
                self.budget.spec_used() <= usize::MAX,
            decreases self@.len() - idx,
        {
            proof {
                lemma_mem_where_prefix(self@, |i: int| true, idx as int);
                lemma_mem_where_prefix_le(self@, idx as int + 1);
            }
            sum = sum + self.slots[idx].memory_used();
            idx = idx + 1;
        }
        proof {
            assert(self@.subrange(0, self@.len() as int) =~= self@);
        }
        sum
    }
}

proof fn lemma_mem_where_same_memory(s: Seq<ImageSlot>, p: spec_fn(int) -> bool, q: spec_fn(int) -> bool)
    requires
        forall|i: int| 0 <= i < s.len() && #[trigger] p(i) != q(i) ==> s[i].memory_of() == 0,
    ensures
        mem_where(s, p) == mem_where(s, q),
    decreases s.len(),
{
    if s.len() > 0 {
        lemma_mem_where_same_memory(s.drop_last(), p, q);
        assert(p(s.len() - 1) != q(s.len() - 1) ==> s.last().memory_of() == 0);
    }
}

proof fn lemma_no_memory(s: Seq<ImageSlot>)
    ensures
        mem_where(s, |i: int| false) == 0,
    decreases s.len(),
{
    if s.len() > 0 {
        lemma_no_memory(s.drop_last());
    }
}

proof fn lemma_mem_where_prefix_le(s: Seq<ImageSlot>, k: int)
    requires
        0 <= k <= s.len(),
    ensures
        mem_where(s.subrange(0, k), |i: int| true) <= total_memory(s),
    decreases s.len() - k,
{
    if k < s.len() {
        lemma_mem_where_prefix(s, |i: int| true, k);
        lemma_mem_where_prefix_le(s, k + 1);
    } else {
        assert(s.subrange(0, k) =~= s);
    }
}

} // verus!
