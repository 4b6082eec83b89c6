//! The scene: an ordered collection of spheres queried for the nearest hit.
//!
//! The search loop narrows the interval to the best parameter found so far,
//! which is proved equivalent to taking, among all members' hits over the
//! caller's interval, the one with the smallest parameter (earliest member
//! on ties). From that shape the order-independence of the result follows.

use vstd::prelude::*;
use crate::fixed::Fixed;
use crate::hittable::HitRecord;
use crate::interval::{surrounds_spec, Interval};
use crate::ray::Ray;
use crate::sphere::{
    hit_a, hit_disc, hit_root1, hit_root2, hit_sqrtd, interval_wf, lemma_hit_t_bounded, ray_wf,
    sphere_hit_spec, sphere_hit_t, sphere_wf, Sphere,
};
use crate::vec3::lemma_sum_sq_nonneg;

verus! {

/// Every sphere of the sequence is well formed.
pub open spec fn scene_wf(objs: Seq<Sphere>) -> bool {
    forall|i: int| 0 <= i < objs.len() ==> #[trigger] sphere_wf(objs[i])
}

/// The nearest hit among the members' hits over the caller's interval:
/// a later member only displaces the current best when its parameter is
/// strictly smaller, so on ties the earliest member wins.
pub open spec fn best_hit(objs: Seq<Sphere>, ray: Ray, itv: Interval) -> Option<HitRecord>
    decreases objs.len(),
{
    if objs.len() == 0 {
        None
    } else {
        let prefix = best_hit(objs.drop_last(), ray, itv);
        let last = sphere_hit_spec(objs.last(), ray, itv);
        match (prefix, last) {
            (None, _) => last,
            (Some(b), None) => Some(b),
            (Some(b), Some(h)) => if h.t@ < b.t@ {
                Some(h)
            } else {
                Some(b)
            },
        }
    }
}

/// A simple wrapper structure for the list of objects in the scene.
pub struct HittableList {
    pub objects: Vec<Sphere>,
}

impl View for HittableList {
    type V = Seq<Sphere>;

    open spec fn view(&self) -> Seq<Sphere> {
        self.objects@
    }
}

impl HittableList {
    /// An empty scene.
    pub fn new() -> (r: HittableList)
        ensures
            r@.len() == 0,
    {
        HittableList { objects: Vec::new() }
    }

    /// A scene holding a single object.
    pub fn from_hittable(object: Sphere) -> (r: HittableList)
        ensures
            r@.len() == 1,
            r@[0] == object,
    {
        let mut objects: Vec<Sphere> = Vec::new();
        objects.push(object);
        HittableList { objects }
    }

    /// Remove every object.
    pub fn clear(&mut self)
        ensures
            final(self)@.len() == 0,
    {
        self.objects.clear();
    }

    /// Append an object to the scene.
    pub fn add(&mut self, object: Sphere)
        ensures
            final(self)@ == old(self)@.push(object),
    {
        self.objects.push(object);
    }

    /// The first thing the ray hits: the member intersection with the
    /// smallest parameter strictly inside `interval`, or nothing. Each
    /// member is tested against an interval narrowed to the best parameter
    /// found so far, which both rejects farther hits early and implements
    /// the nearest-hit rule.
    pub fn hit(&self, ray: Ray, interval: Interval) -> (r: Option<HitRecord>)
        requires
            scene_wf(self@),
            ray_wf(ray),
            interval_wf(interval),
        ensures
            r == best_hit(self@, ray, interval),
            r matches Some(h) ==> surrounds_spec(interval, h.t@),
    {
        let mut closest_hit: Option<HitRecord> = None;
        let n: usize = self.objects.len();
        let mut i: usize = 0;
        proof {
            assert(self@.take(0) =~= Seq::<Sphere>::empty());
        }
        while i < n
            invariant
                i <= n,
                n == self@.len(),
                scene_wf(self@),
                ray_wf(ray),
                interval_wf(interval),
                closest_hit == best_hit(self@.take(i as int), ray, interval),
                closest_hit matches Some(b) ==> surrounds_spec(interval, b.t@),
            decreases n - i,
        {
            let closest_t: Fixed = match closest_hit {
                Some(rec) => rec.t,
                None => interval.max,
            };
            let smallest_interval: Interval = Interval::new(interval.min, closest_t);
            let obj: Sphere = self.objects[i];
            let member_hit: Option<HitRecord> = obj.hit(ray, smallest_interval);
            proof {
                lemma_sphere_hit_narrow(obj, ray, interval, smallest_interval);
                lemma_hit_t_bounded(obj, ray, interval);
                assert(self@.take(i as int + 1).drop_last() =~= self@.take(i as int));
                assert(self@.take(i as int + 1).last() == self@[i as int]);
            }
            if let Some(hit_info) = member_hit {
                closest_hit = Some(hit_info);
            }
            i = i + 1;
        }
        proof {
            assert(self@.take(n as int) =~= self@);
        }
        closest_hit
    }
}

impl crate::hittable::Hittable for HittableList {
    open spec fn hit_req(&self, ray: Ray, interval: Interval) -> bool {
        scene_wf(self@) && ray_wf(ray) && interval_wf(interval)
    }

    open spec fn hit_spec(&self, ray: Ray, interval: Interval) -> Option<HitRecord> {
        best_hit(self@, ray, interval)
    }

    fn hit(&self, ray: Ray, interval: Interval) -> (r: Option<HitRecord>) {
        HittableList::hit(self, ray, interval)
    }
}

/// What the scene returns is a member's hit, and it is the nearest one:
/// the scene reports a hit exactly when some member hits, the reported
/// record is one reported by a member over the caller's interval, and its
/// parameter is the smallest any member reports.
pub proof fn lemma_best_hit_minimal(objs: Seq<Sphere>, ray: Ray, itv: Interval)
    ensures
        (best_hit(objs, ray, itv) is Some) == (exists|i: int|
            0 <= i < objs.len() && #[trigger] sphere_hit_spec(objs[i], ray, itv) is Some),
        best_hit(objs, ray, itv) matches Some(h) ==> (exists|i: int|
            0 <= i < objs.len() && #[trigger] sphere_hit_spec(objs[i], ray, itv) == Some(h))
            && (forall|i: int|
            0 <= i < objs.len() ==> match #[trigger] sphere_hit_spec(objs[i], ray, itv) {
                Some(hi) => h.t@ <= hi.t@,
                None => true,
            }),
    decreases objs.len(),
{
    if objs.len() > 0 {
        lemma_best_hit_minimal(objs.drop_last(), ray, itv);
        assert(forall|i: int|
            0 <= i < objs.len() - 1 ==> objs.drop_last()[i] == #[trigger] objs[i]);
        assert(objs.last() == objs[objs.len() - 1]);
    }
}

/// The scene's answer does not depend on the order of its members: two
/// scenes holding the same multiset of objects report the same outcome,
/// with the same hit parameter.
pub proof fn lemma_best_hit_permutation(objs1: Seq<Sphere>, objs2: Seq<Sphere>, ray: Ray,
    itv: Interval)
    requires
        objs1.to_multiset() == objs2.to_multiset(),
    ensures
        match (best_hit(objs1, ray, itv), best_hit(objs2, ray, itv)) {
            (None, None) => true,
            (Some(h1), Some(h2)) => h1.t@ == h2.t@,
            _ => false,
        },
{
    objs1.to_multiset_ensures();
    objs2.to_multiset_ensures();
    lemma_best_hit_minimal(objs1, ray, itv);
    lemma_best_hit_minimal(objs2, ray, itv);
    lemma_hitting_member_carries(objs1, objs2, ray, itv);
    lemma_hitting_member_carries(objs2, objs1, ray, itv);
}

/// If some member of `objs1` hits and `objs2` holds the same objects, then
/// some member of `objs2` hits, and the nearest parameter in `objs2` is no
/// worse than any parameter a member of `objs1` reports.
proof fn lemma_hitting_member_carries(objs1: Seq<Sphere>, objs2: Seq<Sphere>, ray: Ray,
    itv: Interval)
    requires
        objs1.to_multiset() == objs2.to_multiset(),
    ensures
        (best_hit(objs1, ray, itv) is Some) ==> (best_hit(objs2, ray, itv) is Some),
        match (best_hit(objs1, ray, itv), best_hit(objs2, ray, itv)) {
            (Some(h1), Some(h2)) => h2.t@ <= h1.t@,
            _ => true,
        },
{
    objs1.to_multiset_ensures();
    objs2.to_multiset_ensures();
    lemma_best_hit_minimal(objs1, ray, itv);
    lemma_best_hit_minimal(objs2, ray, itv);
    if best_hit(objs1, ray, itv) is Some {
        let h1 = best_hit(objs1, ray, itv)->Some_0;
        let i = choose|i: int|
            0 <= i < objs1.len() && #[trigger] sphere_hit_spec(objs1[i], ray, itv) == Some(h1);
        let x = objs1[i];
        assert(objs1.contains(x));
        assert(objs2.to_multiset().count(x) > 0);
        assert(objs2.contains(x));
        let j = choose|j: int| 0 <= j < objs2.len() && objs2[j] == x;
        assert(sphere_hit_spec(objs2[j], ray, itv) == Some(h1));
    }
}

/// `hit_a` is a truncated sum of squares, so it is never negative.
pub proof fn lemma_hit_a_nonneg(ray: Ray)
    ensures
        hit_a(ray) >= 0,
{
    lemma_sum_sq_nonneg(ray.direction);
    crate::fixed::lemma_tdiv_ordered(
        0,
        crate::vec3::sum_sq(ray.direction),
        crate::fixed::SCALE as int,
    );
}

/// The nearer root never exceeds the farther root.
pub proof fn lemma_roots_ordered(s: Sphere, ray: Ray)
    requires
        hit_a(ray) >= 1,
        hit_disc(s, ray) >= 0,
    ensures
        hit_root1(s, ray) <= hit_root2(s, ray),
{
    let h = crate::sphere::hit_h(s, ray);
    let sq = hit_sqrtd(s, ray);
    crate::fixed::lemma_tdiv_ordered(
        (h - sq) * (crate::fixed::SCALE as int),
        (h + sq) * (crate::fixed::SCALE as int),
        hit_a(ray),
    );
}

/// Narrowing only the upper bound of the search interval filters the hit:
/// the member reports exactly its full-interval parameter when that
/// parameter beats the narrowed bound, and nothing otherwise.
pub proof fn lemma_sphere_hit_narrow(s: Sphere, ray: Ray, full: Interval, narrowed: Interval)
    requires
        narrowed.min@ == full.min@,
        narrowed.max@ <= full.max@,
    ensures
        sphere_hit_t(s, ray, narrowed) == (match sphere_hit_t(s, ray, full) {
            Some(t) => if t < narrowed.max@ {
                Some(t)
            } else {
                None::<int>
            },
            None => None::<int>,
        }),
        sphere_hit_spec(s, ray, narrowed) == (match sphere_hit_spec(s, ray, full) {
            Some(h) => if h.t@ < narrowed.max@ {
                Some(h)
            } else {
                None::<HitRecord>
            },
            None => None::<HitRecord>,
        }),
{
    if s.radius@ > 0 && hit_a(ray) != 0 && hit_disc(s, ray) >= 0 {
        lemma_hit_a_nonneg(ray);
        lemma_roots_ordered(s, ray);
    }
    lemma_hit_t_bounded(s, ray, full);
    lemma_hit_t_bounded(s, ray, narrowed);
}

} // verus!
