//! Scenes: collections of surfaces.

use crate::hittable::HitRecord;
use crate::hittable::Hittable;
use crate::interval::Interval;
use crate::ray::Ray;
use crate::scalar::Scalar;
use std::rc::Rc;
use vstd::prelude::*;

verus! {

/// The surfaces of a scene, which are shared with whoever else holds them.
pub struct HittableList<H: Hittable> {
    pub objects: Vec<Rc<H>>,
}

impl<H: Hittable> HittableList<H> {
    /// The scene without surfaces.
    pub fn new_empty() -> (h: HittableList<H>)
        ensures
            h.objects@ == Seq::<Rc<H>>::empty(),
    {
        HittableList { objects: Vec::new() }
    }

    /// The scene that holds `object` alone.
    pub fn new(&mut self, object: Rc<H>) -> (h: HittableList<H>)
        ensures
            h.objects@ == seq![object],
            *final(self) == *old(self),
    {
        let mut h = HittableList { objects: Vec::new() };

        h.objects.push(object);

        h
    }

    /// Adds a surface to the scene, behind those it holds.
    pub fn add(&mut self, object: Rc<H>)
        ensures
            final(self).objects@ == old(self).objects@.push(object),
    {
        self.objects.push(object);
    }

    /// Takes all surfaces out of the scene.
    pub fn clear(&mut self)
        ensures
            final(self).objects@ == Seq::<Rc<H>>::empty(),
    {
        self.objects.clear();
    }

    /// The hit that member `i` reports by itself.
    pub open spec fn member_hit(self, i: int, r: Ray, ray_t: Interval) -> Option<HitRecord> {
        (*self.objects@[i]).spec_hit(r, ray_t)
    }

    /// The upper end of the interval in which the next member is asked,
    /// after `found` was found: the parameter of that hit, or the end of
    /// `ray_t` where nothing was found yet.
    pub open spec fn closest_so_far(found: Option<HitRecord>, ray_t: Interval) -> Scalar {
        match found {
            Some(rec) => rec.t,
            None => ray_t.max,
        }
    }

    /// The hit found among the first `n` members: each member in turn is
    /// asked for a hit that is nearer than what was found before it.
    pub open spec fn nearest_of_first(self, n: int, r: Ray, ray_t: Interval) -> Option<HitRecord>
        decreases n,
    {
        if n <= 0 {
            None
        } else {
            let found = self.nearest_of_first(n - 1, r, ray_t);
            let asked = Interval { min: ray_t.min, max: Self::closest_so_far(found, ray_t) };
            match self.member_hit(n - 1, r, asked) {
                Some(rec) => Some(rec),
                None => found,
            }
        }
    }

    /// Whether `rec` is the hit of member `i`, no member among the first
    /// `n` reports a nearer hit, and none before `i` one that is as near.
    pub open spec fn is_nearest_among(
        self,
        n: int,
        r: Ray,
        ray_t: Interval,
        i: int,
        rec: HitRecord,
    ) -> bool {
        &&& 0 <= i < n
        &&& self.member_hit(i, r, ray_t) == Some(rec)
        &&& forall|j: int|
            0 <= j < n ==> (#[trigger] self.member_hit(j, r, ray_t) matches Some(other) ==> {
                &&& rec.t@ <= other.t@
                &&& j < i ==> rec.t@ < other.t@
            })
    }

    /// What is found among the first `n` members is the nearest of all the
    /// hits that they report by themselves in `ray_t`, and the first of them
    /// where several are as near; nothing is found only where none of them
    /// reports a hit.
    pub proof fn lemma_nearest_of_first(self, n: int, r: Ray, ray_t: Interval)
        requires
            0 <= n <= self.objects@.len(),
        ensures
            match self.nearest_of_first(n, r, ray_t) {
                Some(rec) => ray_t.spec_surrounds(rec.t) && exists|i: int|
                    self.is_nearest_among(n, r, ray_t, i, rec),
                None => forall|j: int|
                    0 <= j < n ==> (#[trigger] self.member_hit(j, r, ray_t)) is None,
            },
        decreases n,
    {
        if n > 0 {
            self.lemma_nearest_of_first(n - 1, r, ray_t);
            let found = self.nearest_of_first(n - 1, r, ray_t);
            let bound = Self::closest_so_far(found, ray_t);
            let asked = Interval { min: ray_t.min, max: bound };
            let last = *self.objects@[n - 1];
            last.lemma_hit_nearest(r, ray_t, bound);
            last.lemma_hit_surrounded(r, ray_t);
            last.lemma_hit_surrounded(r, asked);
            match found {
                None => {
                    assert(asked == ray_t);
                    match self.member_hit(n - 1, r, ray_t) {
                        Some(rec) => {
                            assert(self.is_nearest_among(n, r, ray_t, n - 1, rec));
                        },
                        None => {},
                    }
                },
                Some(prev) => {
                    let before = n - 1;
                    let i = choose|i: int| self.is_nearest_among(before, r, ray_t, i, prev);
                    match self.member_hit(n - 1, r, asked) {
                        Some(rec) => {
                            assert(self.member_hit(n - 1, r, ray_t) == Some(rec));
                            assert(self.is_nearest_among(n, r, ray_t, n - 1, rec));
                        },
                        None => {
                            assert(self.is_nearest_among(n, r, ray_t, i, prev));
                        },
                    }
                },
            }
        }
    }

    /// Asking the first `n` members in an interval with a lower upper end
    /// finds the same hit as long as it lies below that end, and none
    /// otherwise.
    pub proof fn lemma_nearest_of_first_shrinks(
        self,
        n: int,
        r: Ray,
        ray_t: Interval,
        bound: Scalar,
    )
        requires
            0 <= n <= self.objects@.len(),
            bound@ <= ray_t.max@,
        ensures
            self.nearest_of_first(n, r, Interval { min: ray_t.min, max: bound }) == (
            match self.nearest_of_first(n, r, ray_t) {
                Some(rec) => if rec.t@ < bound@ {
                    Some(rec)
                } else {
                    None
                },
                None => None,
            }),
        decreases n,
    {
        if n > 0 {
            let low = Interval { min: ray_t.min, max: bound };
            self.lemma_nearest_of_first_shrinks(n - 1, r, ray_t, bound);
            self.lemma_nearest_of_first(n - 1, r, ray_t);
            let found = self.nearest_of_first(n - 1, r, ray_t);
            let found_low = self.nearest_of_first(n - 1, r, low);
            let last = *self.objects@[n - 1];
            let asked = Interval { min: ray_t.min, max: Self::closest_so_far(found, ray_t) };
            let asked_low = Interval { min: low.min, max: Self::closest_so_far(found_low, low) };
            last.lemma_hit_nearest(r, ray_t, bound);
            last.lemma_hit_nearest(r, ray_t, asked.max);
            last.lemma_hit_surrounded(r, asked);
            last.lemma_hit_surrounded(r, asked_low);
        }
    }
}

impl<H: Hittable> Hittable for HittableList<H> {
    /// The nearest of the hits that the members report, and the first
    /// member's where several are as near.
    open spec fn spec_hit(&self, r: Ray, ray_t: Interval) -> Option<HitRecord> {
        self.nearest_of_first(self.objects@.len() as int, r, ray_t)
    }

    proof fn lemma_hit_surrounded(&self, r: Ray, ray_t: Interval) {
        self.lemma_nearest_of_first(self.objects@.len() as int, r, ray_t);
    }

    proof fn lemma_hit_faces_ray(&self, r: Ray, ray_t: Interval) {
        let n = self.objects@.len() as int;
        self.lemma_nearest_of_first(n, r, ray_t);
        match self.spec_hit(r, ray_t) {
            Some(rec) => {
                let i = choose|i: int| self.is_nearest_among(n, r, ray_t, i, rec);
                (*self.objects@[i]).lemma_hit_faces_ray(r, ray_t);
            },
            None => {},
        }
    }

    proof fn lemma_hit_nearest(&self, r: Ray, ray_t: Interval, bound: Scalar) {
        self.lemma_nearest_of_first_shrinks(self.objects@.len() as int, r, ray_t, bound);
    }

    fn hit(&self, r: &Ray, ray_t: Interval, hit_rec: &mut HitRecord) -> (res: bool)
        ensures
            match self.spec_hit(*r, ray_t) {
                Some(rec) => ray_t.spec_surrounds(rec.t) && exists|i: int|
                    self.is_nearest_among(self.objects@.len() as int, *r, ray_t, i, rec),
                None => forall|j: int|
                    0 <= j < self.objects@.len() ==> (#[trigger] self.member_hit(j, *r, ray_t))
                        is None,
            },
    {
        let mut hit_anything = false;
        let mut closest_so_far = ray_t.max;
        let mut i: usize = 0;

        while i < self.objects.len()
            invariant
                0 <= i <= self.objects@.len(),
                hit_anything == self.nearest_of_first(i as int, *r, ray_t).is_some(),
                closest_so_far == Self::closest_so_far(
                    self.nearest_of_first(i as int, *r, ray_t),
                    ray_t,
                ),
                hit_anything ==> Some(*hit_rec) == self.nearest_of_first(i as int, *r, ray_t),
                !hit_anything ==> *hit_rec == *old(hit_rec),
            decreases self.objects@.len() - i,
        {
            let mut temp_rec = HitRecord::new_empty();
            if self.objects[i].hit(r, Interval::new(ray_t.min, closest_so_far), &mut temp_rec) {
                hit_anything = true;
                closest_so_far = temp_rec.t;
                *hit_rec = temp_rec;
            }
            i = i + 1;
        }
        proof {
            self.lemma_nearest_of_first(self.objects@.len() as int, *r, ray_t);
            self.lemma_hit_faces_ray(*r, ray_t);
        }
        hit_anything
    }
}

} // verus!
