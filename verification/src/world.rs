//! The scene container: a linear scan over a list of hitables, and the
//! bounding-volume hierarchy built over such a list.

use crate::aabb::AABB;
use crate::hit::dir_ok;
use crate::hit::ghost_of;
use crate::hit::hit_wf;
use crate::hit::omatch;
use crate::hit::BVHNode;
use crate::hit::GHit;
use crate::hit::HitResult;
use crate::hit::Hitable;
use crate::ray::ray_wf;
use crate::ray::Ray;
use vstd::prelude::*;

verus! {

/// Every hitable in the range is well formed.
pub open spec fn range_wf(items: Seq<Hitable>, l: int, r: int) -> bool {
    forall|k: int| l <= k < r ==> (#[trigger] items[k]).wf()
}

/// No volumetric medium anywhere in the range.
pub open spec fn range_media_free(items: Seq<Hitable>, l: int, r: int) -> bool {
    forall|k: int| l <= k < r ==> (#[trigger] items[k]).media_free()
}

/// Every material index in the range lies below `n`.
pub open spec fn range_mats_in(items: Seq<Hitable>, l: int, r: int, n: int) -> bool {
    forall|k: int| l <= k < r ==> (#[trigger] items[k]).mats_in(n)
}

/// Every hitable in the range has a bounding box.
pub open spec fn range_boxed(items: Seq<Hitable>, l: int, r: int) -> bool {
    forall|k: int| l <= k < r ==> (#[trigger] items[k]).bbox_model() is Some
}

/// `x` is one of the values in `items[l..r]`.
pub open spec fn from_range(x: Hitable, items: Seq<Hitable>, l: int, r: int) -> bool {
    exists|j: int| l <= j < r && items[j] == x
}

/// The fold the linear scan performs from position `i` onward, with
/// `best` the closest record found so far: each remaining item is
/// tested against the best parameter yet seen, and a fresh hit always
/// replaces the record.
pub open spec fn list_hit_from(
    items: Seq<Hitable>,
    i: int,
    ra: Ray,
    tmin: int,
    tmax: int,
    best: Option<GHit>,
) -> Option<GHit>
    decreases items.len() - i,
{
    if i < 0 || i >= items.len() {
        best
    } else {
        let cur_max = if best is Some {
            best->0.t
        } else {
            tmax
        };
        match items[i].model(ra, tmin, cur_max) {
            Some(g) => list_hit_from(items, i + 1, ra, tmin, tmax, Some(g)),
            None => list_hit_from(items, i + 1, ra, tmin, tmax, best),
        }
    }
}

/// What the linear scan over the whole list returns.
pub open spec fn list_hit_model(items: Seq<Hitable>, ra: Ray, tmin: int, tmax: int) -> Option<
    GHit,
> {
    list_hit_from(items, 0, ra, tmin, tmax, None)
}

/// The closest hit over a list of hitables, by linear scan: on a
/// media-free list, exactly `list_hit_model`.
pub fn hit(hitlist: &[Hitable], ra: &Ray, t_min: i64, t_max: i64) -> (res: Option<HitResult>)
    requires
        range_wf(hitlist@, 0, hitlist@.len() as int),
        ray_wf(*ra),
        dir_ok(ra.direction),
        -0x100_0000_0000 <= t_min <= t_max <= 0x100_0000_0000,
    ensures
        range_media_free(hitlist@, 0, hitlist@.len() as int) ==> omatch(
            res,
            list_hit_model(hitlist@, *ra, t_min as int, t_max as int),
        ),
        res is Some ==> hit_wf(res->0) && t_min <= res->0.t <= t_max,
        forall|n: int|
            #[trigger] range_mats_in(hitlist@, 0, hitlist@.len() as int, n) && res is Some ==> (
            res->0.mat as int) < n,
{
    let ghost items = hitlist@;
    let mut ans: Option<HitResult> = None;
    let mut closest_t: i64 = t_max;
    let n = hitlist.len();
    let mut i: usize = 0;
    while i < n
        invariant
            n == items.len(),
            hitlist@ == items,
            0 <= i <= n,
            range_wf(items, 0, n as int),
            ray_wf(*ra),
            dir_ok(ra.direction),
            -0x100_0000_0000 <= t_min <= t_max <= 0x100_0000_0000,
            closest_t == (if ans is Some {
                ans->0.t
            } else {
                t_max
            }),
            ans is Some ==> hit_wf(ans->0) && t_min <= ans->0.t <= t_max,
            range_media_free(items, 0, n as int) ==> list_hit_from(
                items,
                i as int,
                *ra,
                t_min as int,
                t_max as int,
                ghost_of(ans),
            ) == list_hit_model(items, *ra, t_min as int, t_max as int),
            forall|k: int|
                #[trigger] range_mats_in(items, 0, n as int, k) && ans is Some ==> (
                ans->0.mat as int) < k,
        decreases n - i,
    {
        let opt = hitlist[i].hit(ra, t_min, closest_t);
        proof {
            assert(items[i as int].wf());
            if range_media_free(items, 0, n as int) {
                assert(items[i as int].media_free());
            }
            assert forall|k: int|
                #[trigger] range_mats_in(items, 0, n as int, k) && opt is Some implies (
            opt->0.mat as int) < k by {
                if range_mats_in(items, 0, n as int, k) {
                    assert(items[i as int].mats_in(k));
                }
            }
        }
        if let Option::Some(hit_result) = opt {
            closest_t = hit_result.t;
            ans = Option::Some(hit_result);
        }
        i = i + 1;
    }
    ans
}

/// If two same-length lists hold the same multiset of values over a
/// window, flatness of the window transfers between them.
proof fn lemma_flat_transfer(fin: Seq<Hitable>, orig: Seq<Hitable>, l: int, r: int)
    requires
        0 <= l <= r <= fin.len(),
        r <= orig.len(),
        fin.subrange(l, r).to_multiset() == orig.subrange(l, r).to_multiset(),
        range_flat(orig, l, r),
    ensures
        range_flat(fin, l, r),
{
    broadcast use vstd::seq_lib::group_to_multiset_ensures;

    assert forall|k: int| l <= k < r implies !((#[trigger] fin[k]) matches Hitable::Node(_)) by {
        let fs = fin.subrange(l, r);
        let os = orig.subrange(l, r);
        assert(fs[k - l] == fin[k]);
        assert(fs.contains(fin[k]));
        assert(fs.to_multiset().count(fin[k]) > 0);
        assert(os.to_multiset().count(fin[k]) > 0);
        assert(os.contains(fin[k]));
        let j = choose|j: int| 0 <= j < os.len() && os[j] == fin[k];
        assert(orig[l + j] == fin[k]);
    }
}

/// The leaf correspondence survives replacing the window by any list
/// holding the same multiset of values there.
proof fn lemma_tree_matches_transfer(
    t: Hitable,
    fin: Seq<Hitable>,
    orig: Seq<Hitable>,
    l: int,
    r: int,
)
    requires
        0 <= l <= r <= fin.len(),
        r <= orig.len(),
        fin.subrange(l, r).to_multiset() == orig.subrange(l, r).to_multiset(),
        tree_matches_range(t, fin, l, r),
    ensures
        tree_matches_range(t, orig, l, r),
{
    broadcast use vstd::seq_lib::group_to_multiset_ensures;

    assert forall|i: int| l <= i < r implies t.leaves().contains(#[trigger] orig[i]) by {
        let fs = fin.subrange(l, r);
        let os = orig.subrange(l, r);
        assert(os[i - l] == orig[i]);
        assert(os.contains(orig[i]));
        assert(os.to_multiset().count(orig[i]) > 0);
        assert(fs.to_multiset().count(orig[i]) > 0);
        assert(fs.contains(orig[i]));
        let j = choose|j: int| 0 <= j < fs.len() && fs[j] == orig[i];
        assert(fin[l + j] == orig[i]);
        assert(t.leaves().contains(fin[l + j]));
    }
    assert forall|j: int| 0 <= j < t.leaves().len() implies from_range(
        #[trigger] t.leaves()[j],
        orig,
        l,
        r,
    ) by {
        let lv = t.leaves()[j];
        assert(from_range(lv, fin, l, r));
        let w = choose|w: int| l <= w < r && fin[w] == lv;
        let fs = fin.subrange(l, r);
        let os = orig.subrange(l, r);
        assert(fs[w - l] == lv);
        assert(fs.contains(lv));
        assert(fs.to_multiset().count(lv) > 0);
        assert(os.to_multiset().count(lv) > 0);
        assert(os.contains(lv));
        let k = choose|k: int| 0 <= k < os.len() && os[k] == lv;
        assert(orig[l + k] == lv);
    }
}

/// The scene: the root of the hierarchy built over the hit list.
#[derive(Debug)]
pub struct World {
    pub root: Hitable,
}

impl World {
    /// Build the hierarchy over the whole list. `None` exactly when the
    /// list is empty or construction found an item without a bounding
    /// box.
    pub fn new(hitlist: Vec<Hitable>) -> (res: Option<World>)
        requires
            range_wf(hitlist@, 0, hitlist@.len() as int),
        ensures
            res is Some <==> hitlist@.len() > 0 && range_boxed(
                hitlist@,
                0,
                hitlist@.len() as int,
            ),
            match res {
                Some(w) => {
                    &&& w.root.wf()
                    &&& (range_media_free(hitlist@, 0, hitlist@.len() as int)
                        ==> w.root.media_free())
                    &&& (forall|n: int|
                        #[trigger] range_mats_in(hitlist@, 0, hitlist@.len() as int, n)
                            ==> w.root.mats_in(n))
                    &&& w.root.bbox_model() is Some
                    &&& (range_flat(hitlist@, 0, hitlist@.len() as int) ==> w.root.boxes_nested()
                        && tree_matches_range(w.root, hitlist@, 0, hitlist@.len() as int))
                },
                None => true,
            },
    {
        let ghost input = hitlist@;
        let mut list = hitlist;
        let n = list.len();
        if n == 0 {
            return None;
        }
        let built = BVHNode::new(&mut list, 0, n);
        let ghost after = list@;
        proof {
            if built is Some && range_flat(input, 0, n as int) {
                assert(input.subrange(0, n as int) =~= input);
                assert(after.subrange(0, n as int) =~= after);
                lemma_flat_transfer(after, input, 0, n as int);
                lemma_tree_matches_transfer(
                    Hitable::Node(built->0),
                    after,
                    input,
                    0,
                    n as int,
                );
            }
        }
        match built {
            None => None,
            Some(node) => Some(World { root: Hitable::Node(node) }),
        }
    }

    /// The closest hit in the scene: delegates to the root.
    pub fn hit(&self, ra: &Ray, t_min: i64, t_max: i64) -> (res: Option<HitResult>)
        requires
            self.root.wf(),
            ray_wf(*ra),
            dir_ok(ra.direction),
            -0x100_0000_0000 <= t_min <= t_max <= 0x100_0000_0000,
        ensures
            self.root.media_free() ==> omatch(
                res,
                self.root.model(*ra, t_min as int, t_max as int),
            ),
            res is Some ==> hit_wf(res->0) && t_min <= res->0.t <= t_max,
            forall|n: int|
                #[trigger] self.root.mats_in(n) && res is Some ==> (res->0.mat as int) < n,
    {
        self.root.hit(ra, t_min, t_max)
    }
}

/// The ordering the builder sorts by: the box minimum along the chosen
/// axis. Both items must be boxed.
fn cmp_axis(a: &Hitable, b: &Hitable, axis: usize) -> (r: bool)
    requires
        a.wf(),
        b.wf(),
        a.bbox_model() is Some,
        b.bbox_model() is Some,
    ensures
        r == box_key_gt(*a, *b, axis as int),
{
    let ba = match a.bounding_box() {
        Some(x) => x,
        None => {
            proof {
                assert(false);
            }
            AABB { min: crate::vec3::Vec3 { x: 0, y: 0, z: 0 }, max: crate::vec3::Vec3 { x: 0, y: 0, z: 0 } }
        },
    };
    let bb = match b.bounding_box() {
        Some(x) => x,
        None => {
            proof {
                assert(false);
            }
            AABB { min: crate::vec3::Vec3 { x: 0, y: 0, z: 0 }, max: crate::vec3::Vec3 { x: 0, y: 0, z: 0 } }
        },
    };
    if axis == 0 {
        ba.min.x > bb.min.x
    } else if axis == 1 {
        ba.min.y > bb.min.y
    } else {
        ba.min.z > bb.min.z
    }
}

/// "`a`'s box minimum is strictly beyond `b`'s along `axis`."
pub open spec fn box_key_gt(a: Hitable, b: Hitable, axis: int) -> bool {
    let ba = a.bbox_model()->0;
    let bb = b.bbox_model()->0;
    if axis == 0 {
        ba.min.x > bb.min.x
    } else if axis == 1 {
        ba.min.y > bb.min.y
    } else {
        ba.min.z > bb.min.z
    }
}

/// Swapping two positions of a sequence leaves its multiset of values
/// unchanged.
proof fn lemma_swap_multiset<A>(s: Seq<A>, i: int, j: int)
    requires
        0 <= i < s.len(),
        0 <= j < s.len(),
    ensures
        s.update(i, s[j]).update(j, s[i]).to_multiset() == s.to_multiset(),
{
    broadcast use vstd::seq_lib::to_multiset_update;
    broadcast use vstd::seq_lib::group_to_multiset_ensures;
    broadcast use vstd::multiset::group_multiset_axioms;

    if i == j {
        assert(s.update(i, s[j]).update(j, s[i]) =~= s);
    } else {
        let s1 = s.update(i, s[j]);
        assert(s.contains(s[i]));
        assert(s1.contains(s1[j]));
        assert(s.to_multiset().count(s[i]) > 0);
        assert(s1.to_multiset() == s.to_multiset().insert(s[j]).remove(s[i]));
        assert(s1.update(j, s[i]).to_multiset() == s1.to_multiset().insert(s[i]).remove(s1[j]));
        assert(s1.update(j, s[i]).to_multiset() =~= s.to_multiset());
    }
}

/// Updating inside a window commutes with taking the window.
proof fn lemma_subrange_update(s: Seq<Hitable>, l: int, r: int, k: int, x: Hitable)
    requires
        0 <= l <= k < r <= s.len(),
    ensures
        s.update(k, x).subrange(l, r) == s.subrange(l, r).update(k - l, x),
{
    assert(s.update(k, x).subrange(l, r) =~= s.subrange(l, r).update(k - l, x));
}

/// A window's multiset splits at any midpoint.
proof fn lemma_subrange_split_multiset(s: Seq<Hitable>, l: int, mid: int, r: int)
    requires
        0 <= l <= mid <= r <= s.len(),
    ensures
        s.subrange(l, r).to_multiset() == s.subrange(l, mid).to_multiset().add(
            s.subrange(mid, r).to_multiset(),
        ),
{
    assert(s.subrange(l, r) =~= s.subrange(l, mid) + s.subrange(mid, r));
    vstd::seq_lib::lemma_multiset_commutative(s.subrange(l, mid), s.subrange(mid, r));
}

/// Insertion sort of `list[l..r]` by box minimum along `axis`. The
/// contract callers rely on: the range is a rearrangement of values
/// drawn from the old range, and nothing outside it moves.
fn sort_range(list: &mut Vec<Hitable>, l: usize, r: usize, axis: usize)
    requires
        l <= r <= old(list).len(),
        range_wf(old(list)@, l as int, r as int),
        range_boxed(old(list)@, l as int, r as int),
    ensures
        final(list).len() == old(list).len(),
        forall|i: int|
            0 <= i < final(list)@.len() && !(l <= i < r) ==> final(list)@[i] == old(list)@[i],
        forall|i: int|
            l <= i < r ==> #[trigger] from_range(final(list)@[i], old(list)@, l as int, r as int),
        range_wf(final(list)@, l as int, r as int),
        range_boxed(final(list)@, l as int, r as int),
        final(list)@.subrange(l as int, r as int).to_multiset() == old(list)@.subrange(
            l as int,
            r as int,
        ).to_multiset(),
{
    let ghost orig = old(list)@;
    let mut i: usize = l;
    while i < r
        invariant
            l <= i <= r <= list.len(),
            list.len() == orig.len(),
            forall|k: int| 0 <= k < orig.len() && !(l <= k < r) ==> list@[k] == orig[k],
            forall|k: int|
                l <= k < r ==> #[trigger] from_range(list@[k], orig, l as int, r as int),
            range_wf(orig, l as int, r as int),
            range_boxed(orig, l as int, r as int),
            range_wf(list@, l as int, r as int),
            range_boxed(list@, l as int, r as int),
            list@.subrange(l as int, r as int).to_multiset() == orig.subrange(
                l as int,
                r as int,
            ).to_multiset(),
        decreases r - i,
    {
        let mut j: usize = i;
        while j > l && cmp_axis(&list[j - 1], &list[j], axis)
            invariant
                l <= j <= i < r <= list.len(),
                list.len() == orig.len(),
                forall|k: int| 0 <= k < orig.len() && !(l <= k < r) ==> list@[k] == orig[k],
                forall|k: int|
                    l <= k < r ==> #[trigger] from_range(list@[k], orig, l as int, r as int),
                range_wf(orig, l as int, r as int),
                range_boxed(orig, l as int, r as int),
                range_wf(list@, l as int, r as int),
                range_boxed(list@, l as int, r as int),
                list@.subrange(l as int, r as int).to_multiset() == orig.subrange(
                    l as int,
                    r as int,
                ).to_multiset(),
            decreases j,
        {
            let ghost prev = list@;
            let a = list[j - 1].clone();
            let b = list[j].clone();
            list.set(j - 1, b);
            list.set(j, a);
            proof {
                lemma_subrange_update(prev, l as int, r as int, j - 1, b);
                lemma_subrange_update(prev.update(j - 1, b), l as int, r as int, j as int, a);
                let sub = prev.subrange(l as int, r as int);
                assert(a == sub[j - 1 - l]);
                assert(b == sub[j - l]);
                lemma_swap_multiset(sub, j - 1 - l, j - l);
            }
            j = j - 1;
        }
        i = i + 1;
    }
}

/// No inner hierarchy nodes among the range's items: the usual shape
/// of a scene list, whose entries are primitives and decorators.
pub open spec fn range_flat(items: Seq<Hitable>, l: int, r: int) -> bool {
    forall|k: int| l <= k < r ==> !((#[trigger] items[k]) matches Hitable::Node(_))
}

/// Every leaf of `t` is a value drawn from `items[l..r]`.
pub open spec fn leaves_from(t: Hitable, items: Seq<Hitable>, l: int, r: int) -> bool {
    forall|j: int|
        0 <= j < t.leaves().len() ==> from_range(#[trigger] t.leaves()[j], items, l, r)
}

/// The tree holds exactly the range's primitives: every item of the
/// range is one of its leaves, and every leaf is one of the range's
/// items.
pub open spec fn tree_matches_range(t: Hitable, items: Seq<Hitable>, l: int, r: int) -> bool {
    &&& (forall|i: int| l <= i < r ==> t.leaves().contains(#[trigger] items[i]))
    &&& leaves_from(t, items, l, r)
}

/// Every item of the range is a tree of plain primitive leaves; for
/// the usual scene list the items are the primitives themselves.
pub open spec fn range_primitive(items: Seq<Hitable>, l: int, r: int) -> bool {
    forall|k: int| l <= k < r ==> (#[trigger] items[k]).primitive_leaves()
}

/// A tree whose leaves are all drawn from a range of primitive items
/// has primitive leaves throughout.
pub proof fn lemma_range_primitive_leaves(t: Hitable, items: Seq<Hitable>, l: int, r: int)
    requires
        leaves_from(t, items, l, r),
        range_primitive(items, l, r),
    ensures
        t.primitive_leaves(),
    decreases t,
{
    match t {
        Hitable::Node(n) => {
            assert(t.leaves() == n.left.leaves() + n.right.leaves());
            assert forall|j: int| 0 <= j < n.left.leaves().len() implies from_range(
                #[trigger] n.left.leaves()[j],
                items,
                l,
                r,
            ) by {
                assert(t.leaves()[j] == n.left.leaves()[j]);
            }
            assert forall|j: int| 0 <= j < n.right.leaves().len() implies from_range(
                #[trigger] n.right.leaves()[j],
                items,
                l,
                r,
            ) by {
                assert(t.leaves()[n.left.leaves().len() + j] == n.right.leaves()[j]);
            }
            lemma_range_primitive_leaves(*n.left, items, l, r);
            lemma_range_primitive_leaves(*n.right, items, l, r);
        },
        _ => {
            assert(t.leaves() =~= seq![t]);
            assert(from_range(t.leaves()[0], items, l, r));
            let i = choose|j: int| l <= j < r && items[j] == t;
            assert(items[i].primitive_leaves());
        },
    }
}

/// Law: a hierarchy built over a flat list of plain primitives —
/// what the constructor's contract hands back on such input — traces
/// exactly the closest hit over its leaves, for every ray within the
/// direction bound and every parameter interval.
pub proof fn lemma_world_primitive_closest_hit(
    w: World,
    items: Seq<Hitable>,
    ra: Ray,
    tmin: int,
    tmax: int,
)
    requires
        w.root.wf(),
        w.root.boxes_nested(),
        tree_matches_range(w.root, items, 0, items.len() as int),
        range_primitive(items, 0, items.len() as int),
        ra.direction.bounded(0x10_0000_0000),
    ensures
        w.root.model(ra, tmin, tmax) == crate::hit::best_of(w.root.leaves(), ra, tmin, tmax),
{
    lemma_range_primitive_leaves(w.root, items, 0, items.len() as int);
    w.root.lemma_bvh_primitive_closest_hit(ra, tmin, tmax);
}

proof fn lemma_contains_concat_left(a: Seq<Hitable>, b: Seq<Hitable>, x: Hitable)
    requires
        a.contains(x),
    ensures
        (a + b).contains(x),
{
    let i = choose|i: int| 0 <= i < a.len() && a[i] == x;
    assert((a + b)[i] == x);
}

proof fn lemma_contains_concat_right(a: Seq<Hitable>, b: Seq<Hitable>, x: Hitable)
    requires
        b.contains(x),
    ensures
        (a + b).contains(x),
{
    let i = choose|i: int| 0 <= i < b.len() && b[i] == x;
    assert((a + b)[a.len() + i] == x);
}

impl BVHNode {
    /// Build the hierarchy over `hitlist[l..r]`: sort the range by the
    /// box minimum along a uniformly random axis, split at the middle,
    /// and recurse; a single item becomes both children of its leaf.
    ///
    /// Construction succeeds exactly when every item in the range has a
    /// bounding box; it never touches the list outside the range.
    pub fn new(hitlist: &mut Vec<Hitable>, l: usize, r: usize) -> (res: Option<BVHNode>)
        requires
            l < r <= old(hitlist).len(),
            range_wf(old(hitlist)@, l as int, r as int),
        ensures
            final(hitlist).len() == old(hitlist).len(),
            forall|i: int|
                0 <= i < final(hitlist)@.len() && !(l <= i < r) ==> final(hitlist)@[i] == old(
                    hitlist,
                )@[i],
            forall|i: int|
                l <= i < r ==> #[trigger] from_range(
                    final(hitlist)@[i],
                    old(hitlist)@,
                    l as int,
                    r as int,
                ),
            range_wf(final(hitlist)@, l as int, r as int),
            res is Some <==> range_boxed(old(hitlist)@, l as int, r as int),
            res is Some ==> {
                &&& Hitable::Node(res->0).wf()
                &&& (range_media_free(old(hitlist)@, l as int, r as int) ==> Hitable::Node(
                    res->0,
                ).media_free())
                &&& (forall|n: int|
                    #[trigger] range_mats_in(old(hitlist)@, l as int, r as int, n)
                        ==> Hitable::Node(res->0).mats_in(n))
                &&& Hitable::Node(res->0).bbox_model() is Some
            },
            res is Some && range_flat(final(hitlist)@, l as int, r as int) ==> tree_matches_range(
                Hitable::Node(res->0),
                final(hitlist)@,
                l as int,
                r as int,
            ) && Hitable::Node(res->0).boxes_nested(),
            final(hitlist)@.subrange(l as int, r as int).to_multiset() == old(hitlist)@.subrange(
                l as int,
                r as int,
            ).to_multiset(),
        decreases r - l,
    {
        let ghost orig = old(hitlist)@;
        // Fail fast if anything in the range is unbounded.
        let mut k: usize = l;
        while k < r
            invariant
                l <= k <= r <= hitlist.len(),
                hitlist@ == orig,
                range_wf(orig, l as int, r as int),
                range_boxed(orig, l as int, k as int),
            decreases r - k,
        {
            if hitlist[k].bounding_box().is_none() {
                proof {
                    assert(!range_boxed(orig, l as int, r as int));
                    lemma_id_from_range(orig, l as int, r as int);
                }
                return None;
            }
            k = k + 1;
        }
        proof {
            assert(range_boxed(orig, l as int, r as int));
        }
        let axis = crate::random::random_index(0, 3);
        sort_range(hitlist, l, r, axis);
        proof {
            lemma_range_transfer(hitlist@, orig, l as int, r as int);
        }
        if r - l == 2 {
            let item_l = hitlist[l].clone();
            let item_r = hitlist[l + 1].clone();
            proof {
                assert(from_range(hitlist@[l as int], orig, l as int, r as int));
                assert(from_range(hitlist@[l as int + 1], orig, l as int, r as int));
            }
            let bl = match item_l.bounding_box() {
                Some(x) => x,
                None => {
                    proof {
                        assert(false);
                    }
                    return None;
                },
            };
            let br = match item_r.bounding_box() {
                Some(x) => x,
                None => {
                    proof {
                        assert(false);
                    }
                    return None;
                },
            };
            let node = BVHNode {
                bbox: AABB::surrounding_box(bl, br),
                left: Box::new(item_l),
                right: Box::new(item_r),
            };
            proof {
                lemma_leaf_node_props(node, hitlist@, orig, l as int, r as int, l as int, l as int + 1);
                if range_flat(hitlist@, l as int, r as int) {
                    lemma_pair_node_leaves(node, hitlist@, l as int, r as int, l as int, l as int + 1);
                    assert(tree_matches_range(Hitable::Node(node), hitlist@, l as int, r as int));
                    assert(!((*node.left) matches Hitable::Node(_)));
                    assert(!((*node.right) matches Hitable::Node(_)));
                    assert((*node.left).boxes_nested());
                    assert((*node.right).boxes_nested());
                    assert(Hitable::Node(node).boxes_nested());
                }
            }
            Some(node)
        } else if r - l == 1 {
            let item = hitlist[l].clone();
            proof {
                assert(from_range(hitlist@[l as int], orig, l as int, r as int));
            }
            let bl = match item.bounding_box() {
                Some(x) => x,
                None => {
                    proof {
                        assert(false);
                    }
                    return None;
                },
            };
            let node = BVHNode {
                bbox: AABB::surrounding_box(bl, bl),
                left: Box::new(item.clone()),
                right: Box::new(item),
            };
            proof {
                lemma_leaf_node_props(node, hitlist@, orig, l as int, r as int, l as int, l as int);
                if range_flat(hitlist@, l as int, r as int) {
                    lemma_pair_node_leaves(node, hitlist@, l as int, r as int, l as int, l as int);
                    assert(tree_matches_range(Hitable::Node(node), hitlist@, l as int, r as int));
                    assert(!((*node.left) matches Hitable::Node(_)));
                    assert(!((*node.right) matches Hitable::Node(_)));
                    assert((*node.left).boxes_nested());
                    assert((*node.right).boxes_nested());
                    assert(Hitable::Node(node).boxes_nested());
                }
            }
            Some(node)
        } else {
            let mid = l + (r - l) / 2;
            let ghost after_sort = hitlist@;
            let left = match BVHNode::new(hitlist, l, mid) {
                Some(x) => x,
                None => {
                    proof {
                        assert(false);
                    }
                    return None;
                },
            };
            let ghost after_left = hitlist@;
            proof {
                assert forall|i: int| mid <= i < r implies #[trigger] from_range(
                    after_left[i],
                    orig,
                    l as int,
                    r as int,
                ) by {
                    assert(after_left[i] == after_sort[i]);
                    assert(from_range(after_sort[i], orig, l as int, r as int));
                }
                lemma_range_transfer2(after_left, orig, l as int, mid as int, r as int);
            }
            let right = match BVHNode::new(hitlist, mid, r) {
                Some(x) => x,
                None => {
                    proof {
                        assert(false);
                    }
                    return None;
                },
            };
            let ghost fin = hitlist@;
            let bl = left.bbox;
            let br = right.bbox;
            let node = BVHNode {
                bbox: AABB::surrounding_box(bl, br),
                left: Box::new(Hitable::Node(left)),
                right: Box::new(Hitable::Node(right)),
            };
            proof {
                if range_flat(fin, l as int, r as int) {
                    assert forall|k: int| l <= k < mid implies !((#[trigger] after_left[k]) matches
                        Hitable::Node(_)) by {
                        assert(after_left[k] == fin[k]);
                    }
                    assert(range_flat(after_left, l as int, mid as int));
                    assert(range_flat(fin, mid as int, r as int));
                    assert(tree_matches_range(*node.left, after_left, l as int, mid as int));
                    assert(tree_matches_range(*node.right, fin, mid as int, r as int));
                    let ll = (*node.left).leaves();
                    let rl = (*node.right).leaves();
                    assert(Hitable::Node(node).leaves() == ll + rl);
                    assert forall|i: int| l <= i < r implies Hitable::Node(node).leaves().contains(
                        #[trigger] fin[i],
                    ) by {
                        if i < mid {
                            assert(after_left[i] == fin[i]);
                            assert(ll.contains(after_left[i]));
                            lemma_contains_concat_left(ll, rl, fin[i]);
                        } else {
                            assert(rl.contains(fin[i]));
                            lemma_contains_concat_right(ll, rl, fin[i]);
                        }
                    }
                    assert forall|j: int|
                        0 <= j < Hitable::Node(node).leaves().len() implies from_range(
                        #[trigger] Hitable::Node(node).leaves()[j],
                        fin,
                        l as int,
                        r as int,
                    ) by {
                        let lv = Hitable::Node(node).leaves()[j];
                        if j < ll.len() {
                            assert(lv == ll[j]);
                            assert(from_range(ll[j], after_left, l as int, mid as int));
                            let w = choose|w: int| l <= w < mid && after_left[w] == lv;
                            assert(fin[w] == lv);
                        } else {
                            assert(lv == rl[j - ll.len()]);
                            assert(from_range(rl[j - ll.len()], fin, mid as int, r as int));
                            let w = choose|w: int| mid <= w < r && fin[w] == lv;
                            assert(fin[w] == lv);
                        }
                    }
                }
                // The final range is still a rearrangement of the
                // original one.
                assert forall|i: int| l <= i < r implies #[trigger] from_range(
                    fin[i],
                    orig,
                    l as int,
                    r as int,
                ) by {
                    if i < mid {
                        assert(fin[i] == after_left[i]);
                        assert(from_range(after_left[i], after_sort, l as int, mid as int));
                        let j = choose|j: int|
                            l <= j < mid && after_sort[j] == after_left[i];
                        assert(from_range(after_sort[j], orig, l as int, r as int));
                        let j2 = choose|j2: int|
                            l <= j2 < r && orig[j2] == after_sort[j];
                    } else {
                        assert(from_range(fin[i], after_left, mid as int, r as int));
                        let j = choose|j: int| mid <= j < r && after_left[j] == fin[i];
                        assert(after_left[j] == after_sort[j]);
                        assert(from_range(after_sort[j], orig, l as int, r as int));
                        let j2 = choose|j2: int|
                            l <= j2 < r && orig[j2] == after_sort[j];
                    }
                }
                assert forall|i: int| l <= i < r implies (#[trigger] fin[i]).wf() by {
                    if i < mid {
                        assert(fin[i] == after_left[i]);
                        assert(range_wf(after_left, l as int, mid as int));
                    } else {
                        assert(range_wf(fin, mid as int, r as int));
                    }
                }
                // Media and material facts flow through the two
                // rearrangements into the children.
                if range_media_free(orig, l as int, r as int) {
                    lemma_range_transfer(after_sort, orig, l as int, r as int);
                    assert(range_media_free(after_sort, l as int, mid as int));
                    assert forall|i: int| mid <= i < r implies (#[trigger] after_left[i]).media_free() by {
                        assert(after_left[i] == after_sort[i]);
                    }
                    assert(range_media_free(after_left, mid as int, r as int));
                }
                assert forall|n: int| #[trigger] range_mats_in(orig, l as int, r as int, n)
                    implies Hitable::Node(node).mats_in(n) by {
                    lemma_range_transfer(after_sort, orig, l as int, r as int);
                    assert(range_mats_in(after_sort, l as int, r as int, n));
                    assert(range_mats_in(after_sort, l as int, mid as int, n));
                    assert forall|i: int| mid <= i < r implies (#[trigger] after_left[i]).mats_in(
                        n,
                    ) by {
                        assert(after_left[i] == after_sort[i]);
                    }
                    assert(range_mats_in(after_left, mid as int, r as int, n));
                }
                if range_flat(fin, l as int, r as int) {
                    assert(tree_matches_range(Hitable::Node(node), fin, l as int, r as int));
                    assert(Hitable::Node(node).boxes_nested());
                }
                // The window's multiset survives the sort and both
                // recursive builds.
                assert(fin.subrange(l as int, mid as int) =~= after_left.subrange(
                    l as int,
                    mid as int,
                ));
                assert(after_left.subrange(mid as int, r as int) =~= after_sort.subrange(
                    mid as int,
                    r as int,
                ));
                lemma_subrange_split_multiset(fin, l as int, mid as int, r as int);
                lemma_subrange_split_multiset(after_sort, l as int, mid as int, r as int);
                assert(fin.subrange(l as int, r as int).to_multiset() == after_sort.subrange(
                    l as int,
                    r as int,
                ).to_multiset());
            }
            Some(node)
        }
    }
}

/// The identity rearrangement: every value of a range comes from that
/// range.
proof fn lemma_id_from_range(items: Seq<Hitable>, l: int, r: int)
    requires
        0 <= l,
        r <= items.len(),
    ensures
        forall|i: int| l <= i < r ==> #[trigger] from_range(items[i], items, l, r),
{
    assert forall|i: int| l <= i < r implies #[trigger] from_range(items[i], items, l, r) by {
        assert(l <= i < r && items[i] == items[i]);
    }
}

/// The leaf cases build a node over two (possibly equal) flat range
/// values: its leaves are exactly those two values.
proof fn lemma_pair_node_leaves(
    node: BVHNode,
    items: Seq<Hitable>,
    l: int,
    r: int,
    il: int,
    ir: int,
)
    requires
        0 <= l <= il < r,
        l <= ir < r,
        r <= items.len(),
        r - l <= 2,
        *node.left == items[il],
        *node.right == items[ir],
        il == l,
        ir == if r - l == 2 {
            l + 1
        } else {
            l
        },
        range_flat(items, l, r),
    ensures
        forall|i: int| l <= i < r ==> Hitable::Node(node).leaves().contains(#[trigger] items[i]),
        leaves_from(Hitable::Node(node), items, l, r),
{
    assert(!(items[il] matches Hitable::Node(_)));
    assert(!(items[ir] matches Hitable::Node(_)));
    assert((*node.left).leaves() == seq![items[il]]);
    assert((*node.right).leaves() == seq![items[ir]]);
    let lv = Hitable::Node(node).leaves();
    assert(lv == seq![items[il]] + seq![items[ir]]);
    assert(lv.len() == 2);
    assert(lv[0] == items[il] && lv[1] == items[ir]);
    assert forall|i: int| l <= i < r implies lv.contains(#[trigger] items[i]) by {
        if i == il {
            assert(lv[0] == items[i]);
        } else {
            assert(lv[1] == items[i]);
        }
    }
    assert forall|j: int| 0 <= j < lv.len() implies from_range(#[trigger] lv[j], items, l, r) by {
        if j == 0 {
            assert(items[il] == lv[j]);
        } else {
            assert(items[ir] == lv[j]);
        }
    }
}

/// The leaf cases package two range values (possibly the same one)
/// into a node; its properties follow from theirs.
proof fn lemma_leaf_node_props(
    node: BVHNode,
    cur: Seq<Hitable>,
    orig: Seq<Hitable>,
    l: int,
    r: int,
    il: int,
    ir: int,
)
    requires
        0 <= l <= il < r,
        l <= ir < r,
        r <= orig.len(),
        cur.len() == orig.len(),
        forall|i: int| l <= i < r ==> #[trigger] from_range(cur[i], orig, l, r),
        range_wf(orig, l, r),
        *node.left == cur[il],
        *node.right == cur[ir],
        crate::aabb::aabb_wf(node.bbox),
        crate::aabb::aabb_bounded(node.bbox),
    ensures
        Hitable::Node(node).wf(),
        range_media_free(orig, l, r) ==> Hitable::Node(node).media_free(),
        forall|n: int|
            #[trigger] range_mats_in(orig, l, r, n) ==> Hitable::Node(node).mats_in(n),
{
    assert(from_range(cur[il], orig, l, r));
    assert(from_range(cur[ir], orig, l, r));
    let jl = choose|j: int| l <= j < r && orig[j] == cur[il];
    let jr = choose|j: int| l <= j < r && orig[j] == cur[ir];
    if range_media_free(orig, l, r) {
        assert(orig[jl].media_free());
        assert(orig[jr].media_free());
    }
    assert forall|n: int| #[trigger] range_mats_in(orig, l, r, n) implies Hitable::Node(
        node,
    ).mats_in(n) by {
        assert(orig[jl].mats_in(n));
        assert(orig[jr].mats_in(n));
    }
}

/// A rearranged range whose values come from a well-formed, boxed
/// original range is itself well formed and boxed.
proof fn lemma_range_transfer(cur: Seq<Hitable>, orig: Seq<Hitable>, l: int, r: int)
    requires
        0 <= l <= r <= orig.len(),
        cur.len() == orig.len(),
        forall|i: int| l <= i < r ==> #[trigger] from_range(cur[i], orig, l, r),
        range_wf(orig, l, r),
        range_boxed(orig, l, r),
    ensures
        range_wf(cur, l, r),
        range_boxed(cur, l, r),
        range_media_free(orig, l, r) ==> range_media_free(cur, l, r),
        forall|n: int| #[trigger] range_mats_in(orig, l, r, n) ==> range_mats_in(cur, l, r, n),
{
    assert forall|i: int| l <= i < r implies (#[trigger] cur[i]).wf() && cur[i].bbox_model()
        is Some by {
        assert(from_range(cur[i], orig, l, r));
        let j = choose|j: int| l <= j < r && orig[j] == cur[i];
    }
    if range_media_free(orig, l, r) {
        assert forall|i: int| l <= i < r implies (#[trigger] cur[i]).media_free() by {
            assert(from_range(cur[i], orig, l, r));
            let j = choose|j: int| l <= j < r && orig[j] == cur[i];
        }
    }
    assert forall|n: int| #[trigger] range_mats_in(orig, l, r, n) implies range_mats_in(
        cur,
        l,
        r,
        n,
    ) by {
        assert forall|i: int| l <= i < r implies (#[trigger] cur[i]).mats_in(n) by {
            assert(from_range(cur[i], orig, l, r));
            let j = choose|j: int| l <= j < r && orig[j] == cur[i];
        }
    }
}

/// The same transfer, for the sub-range a recursive call works on.
proof fn lemma_range_transfer2(cur: Seq<Hitable>, orig: Seq<Hitable>, l: int, mid: int, r: int)
    requires
        0 <= l <= mid <= r <= orig.len(),
        cur.len() == orig.len(),
        forall|i: int| mid <= i < r ==> #[trigger] from_range(cur[i], orig, l, r),
        range_wf(orig, l, r),
        range_boxed(orig, l, r),
    ensures
        range_wf(cur, mid, r),
        range_boxed(cur, mid, r),
{
    assert forall|i: int| mid <= i < r implies (#[trigger] cur[i]).wf() && cur[i].bbox_model()
        is Some by {
        assert(from_range(cur[i], orig, l, r));
        let j = choose|j: int| l <= j < r && orig[j] == cur[i];
    }
}

} // verus!
