//! The scene aggregate: an ordered collection of spheres that itself answers
//! nearest-intersection queries.
//!
//! The query walks the members in collection order, narrowing the valid
//! interval to the closest parameter found so far, so a later member can
//! displace the current best hit only by being strictly nearer or tying at
//! the current bound. [`spec_scene_hit`] mirrors that fold exactly, and
//! [`lemma_scene_hit_nearest`] shows the result is the globally nearest hit
//! across all members, independent of traversal order.

use vstd::prelude::*;
use crate::vec3::v3_len_sq;
use crate::ray::{Ray, RayV};
use crate::hittable::{HitRecord, HitV, hit_opt_view};
use crate::sphere::{
    Sphere, SphereV, sphere_wf_v, ray_wf_v, spec_sphere_hit, lemma_sphere_hit_monotone, T_MAX,
};

verus! {

/// An ordered collection of spheres, owned exclusively by the scene.
pub struct HittableList {
    objects: Vec<Sphere>,
}

impl View for HittableList {
    type V = Seq<SphereV>;

    closed spec fn view(&self) -> Seq<SphereV> {
        self.objects@.map_values(|s: Sphere| s@)
    }
}

/// Every member of the scene is a well-formed sphere.
pub open spec fn scene_wf_v(objs: Seq<SphereV>) -> bool {
    forall|i: int| 0 <= i < objs.len() ==> sphere_wf_v(#[trigger] objs[i])
}

/// The exact result of the aggregate query: fold over the members in order,
/// querying each with the interval narrowed to the best parameter so far.
pub open spec fn spec_scene_hit(objs: Seq<SphereV>, r: RayV, t_min: int, t_max: int) -> Option<
    HitV,
>
    decreases objs.len(),
{
    if objs.len() == 0 {
        None
    } else {
        let rest = spec_scene_hit(objs.drop_last(), r, t_min, t_max);
        let closest = match rest {
            Some(h) => h.t,
            None => t_max,
        };
        match spec_sphere_hit(objs.last(), r, t_min, closest) {
            Some(h2) => Some(h2),
            None => rest,
        }
    }
}

/// The aggregate query returns the globally nearest intersection across all
/// members, regardless of traversal order: it misses exactly when every
/// member misses over the full interval, and a reported hit is some member's
/// own full-interval hit, with a parameter no larger than any member's.
pub proof fn lemma_scene_hit_nearest(objs: Seq<SphereV>, r: RayV, t_min: int, t_max: int)
    requires
        v3_len_sq(r.dir) >= 1,
    ensures
        (spec_scene_hit(objs, r, t_min, t_max) is None) <==> (forall|i: int|
            0 <= i < objs.len() ==> spec_sphere_hit(#[trigger] objs[i], r, t_min, t_max) is None),
        (match spec_scene_hit(objs, r, t_min, t_max) {
            Some(h) => {
                &&& t_min <= h.t <= t_max
                &&& exists|i: int|
                    0 <= i < objs.len() && spec_sphere_hit(#[trigger] objs[i], r, t_min, t_max)
                        == Some(h)
                &&& forall|i: int|
                    0 <= i < objs.len() ==> (match spec_sphere_hit(
                        #[trigger] objs[i],
                        r,
                        t_min,
                        t_max,
                    ) {
                        Some(h2) => h.t <= h2.t,
                        None => true,
                    })
            },
            None => true,
        }),
    decreases objs.len(),
{
    if objs.len() == 0 {
    } else {
        let prefix = objs.drop_last();
        let last = objs.last();
        let n = objs.len() as int;
        lemma_scene_hit_nearest(prefix, r, t_min, t_max);
        let rest = spec_scene_hit(prefix, r, t_min, t_max);
        let m = match rest {
            Some(h) => h.t,
            None => t_max,
        };
        lemma_sphere_hit_monotone(last, r, t_min, t_max, m);
        assert(forall|i: int| 0 <= i < n - 1 ==> #[trigger] objs[i] == prefix[i]);
        assert(objs[n - 1] == last);
        match spec_sphere_hit(last, r, t_min, m) {
            Some(h2) => {
                assert(spec_scene_hit(objs, r, t_min, t_max) == Some(h2));
                assert(spec_sphere_hit(objs[n - 1], r, t_min, t_max) == Some(h2));
                assert(forall|i: int|
                    0 <= i < n ==> (match spec_sphere_hit(#[trigger] objs[i], r, t_min, t_max) {
                        Some(h3) => h2.t <= h3.t,
                        None => true,
                    })) by {
                    assert forall|i: int| 0 <= i < n implies (match spec_sphere_hit(
                        #[trigger] objs[i],
                        r,
                        t_min,
                        t_max,
                    ) {
                        Some(h3) => h2.t <= h3.t,
                        None => true,
                    }) by {
                        if i < n - 1 {
                            assert(objs[i] == prefix[i]);
                        }
                    }
                }
            },
            None => {
                match rest {
                    None => {
                        assert(m == t_max);
                        assert(spec_sphere_hit(objs[n - 1], r, t_min, t_max) is None);
                    },
                    Some(hr) => {
                        assert(spec_scene_hit(objs, r, t_min, t_max) == Some(hr));
                        let j = choose|j: int|
                            0 <= j < prefix.len() && spec_sphere_hit(
                                #[trigger] prefix[j],
                                r,
                                t_min,
                                t_max,
                            ) == Some(hr);
                        assert(spec_sphere_hit(objs[j], r, t_min, t_max) == Some(hr));
                        assert(forall|i: int|
                            0 <= i < n ==> (match spec_sphere_hit(
                                #[trigger] objs[i],
                                r,
                                t_min,
                                t_max,
                            ) {
                                Some(h3) => hr.t <= h3.t,
                                None => true,
                            })) by {
                            assert forall|i: int| 0 <= i < n implies (match spec_sphere_hit(
                                #[trigger] objs[i],
                                r,
                                t_min,
                                t_max,
                            ) {
                                Some(h3) => hr.t <= h3.t,
                                None => true,
                            }) by {
                                if i < n - 1 {
                                    assert(objs[i] == prefix[i]);
                                } else {
                                    match spec_sphere_hit(last, r, t_min, t_max) {
                                        Some(h3) => {
                                            if h3.t <= m {
                                                assert(spec_sphere_hit(last, r, t_min, m)
                                                    == Some(h3));
                                            }
                                        },
                                        None => {},
                                    }
                                }
                            }
                        }
                    },
                }
            },
        }
    }
}

/// Two scenes holding the same spheres, in any order, agree on whether a ray
/// hits and on the nearest parameter.
pub proof fn lemma_scene_hit_order_independent(
    objs1: Seq<SphereV>,
    objs2: Seq<SphereV>,
    r: RayV,
    t_min: int,
    t_max: int,
)
    requires
        v3_len_sq(r.dir) >= 1,
        objs1.to_multiset() == objs2.to_multiset(),
    ensures
        (spec_scene_hit(objs1, r, t_min, t_max) is Some) <==> (spec_scene_hit(
            objs2,
            r,
            t_min,
            t_max,
        ) is Some),
        (match (spec_scene_hit(objs1, r, t_min, t_max), spec_scene_hit(objs2, r, t_min, t_max)) {
            (Some(h1), Some(h2)) => h1.t == h2.t,
            _ => true,
        }),
{
    broadcast use vstd::seq_lib::group_to_multiset_ensures;

    lemma_scene_hit_nearest(objs1, r, t_min, t_max);
    lemma_scene_hit_nearest(objs2, r, t_min, t_max);
    match spec_scene_hit(objs1, r, t_min, t_max) {
        Some(h1) => {
            let i1 = choose|i: int|
                0 <= i < objs1.len() && spec_sphere_hit(#[trigger] objs1[i], r, t_min, t_max)
                    == Some(h1);
            let x = objs1[i1];
            assert(objs1.contains(x));
            assert(objs1.to_multiset().count(x) > 0);
            assert(objs2.to_multiset().count(x) > 0);
            assert(objs2.contains(x));
            let j1 = choose|j: int| 0 <= j < objs2.len() && objs2[j] == x;
            assert(spec_sphere_hit(objs2[j1], r, t_min, t_max) == Some(h1));
            assert(spec_scene_hit(objs2, r, t_min, t_max) is Some);
        },
        None => {},
    }
    match spec_scene_hit(objs2, r, t_min, t_max) {
        Some(h2) => {
            let i2 = choose|i: int|
                0 <= i < objs2.len() && spec_sphere_hit(#[trigger] objs2[i], r, t_min, t_max)
                    == Some(h2);
            let x = objs2[i2];
            assert(objs2.contains(x));
            assert(objs2.to_multiset().count(x) > 0);
            assert(objs1.to_multiset().count(x) > 0);
            assert(objs1.contains(x));
            let j2 = choose|j: int| 0 <= j < objs1.len() && objs1[j] == x;
            assert(spec_sphere_hit(objs1[j2], r, t_min, t_max) == Some(h2));
            assert(spec_scene_hit(objs1, r, t_min, t_max) is Some);
        },
        None => {},
    }
}

impl HittableList {
    /// An empty scene.
    pub fn new() -> (list: HittableList)
        ensures
            list@ == Seq::<SphereV>::empty(),
    {
        let list = HittableList { objects: Vec::new() };
        proof {
            assert(list@ =~= Seq::<SphereV>::empty());
        }
        list
    }

    /// Append a sphere to the scene.
    pub fn add(&mut self, object: Sphere)
        ensures
            final(self)@ == old(self)@.push(object@),
    {
        self.objects.push(object);
        proof {
            assert(self@ =~= old(self)@.push(object@));
        }
    }

    /// Report the nearest intersection of `ray` across all members with
    /// parameter in `[t_min, t_max]`.
    pub fn hit(&self, ray: &Ray, t_min: i64, t_max: i64) -> (res: Option<HitRecord>)
        requires
            scene_wf_v(self@),
            ray_wf_v(ray@),
            -(T_MAX as int) <= t_min as int,
            t_max as int <= T_MAX as int,
        ensures
            hit_opt_view(res) == spec_scene_hit(self@, ray@, t_min as int, t_max as int),
    {
        let mut best: Option<HitRecord> = None;
        let mut closest: i64 = t_max;
        let n = self.objects.len();
        let mut i: usize = 0;
        while i < n
            invariant
                0 <= i <= n,
                n == self.objects.len(),
                scene_wf_v(self@),
                ray_wf_v(ray@),
                -(T_MAX as int) <= t_min as int,
                t_max as int <= T_MAX as int,
                hit_opt_view(best) == spec_scene_hit(
                    self@.take(i as int),
                    ray@,
                    t_min as int,
                    t_max as int,
                ),
                match best {
                    Some(h) => closest == h.t && t_min as int <= h@.t && h@.t <= t_max as int,
                    None => closest == t_max,
                },
            decreases n - i,
        {
            proof {
                assert(self@[i as int] == self.objects@[i as int]@);
                assert(self@.take(i as int + 1).drop_last() =~= self@.take(i as int));
                assert(self@.take(i as int + 1).last() == self@[i as int]);
            }
            match self.objects[i].hit(ray, t_min, closest) {
                Some(h) => {
                    best = Some(h);
                    closest = h.t;
                },
                None => {},
            }
            i = i + 1;
        }
        proof {
            assert(self@.take(n as int) =~= self@);
        }
        best
    }
}

} // verus!
