//! A scene: the collection of objects that rays are traced against.

use crate::geometry::ray::Ray;
use crate::numeric::fixed::Fixed;
use crate::scenery::hitable::{Hit, Hitable};
use crate::scenery::sphere::Sphere;
use vstd::prelude::*;

verus! {

/// An ordered collection of spheres. It only ever grows.
pub struct Scene {
    scenery: Vec<Sphere>,
}

impl View for Scene {
    type V = Seq<Sphere>;

    closed spec fn view(&self) -> Seq<Sphere> {
        self.scenery@
    }
}

/// The hit found by visiting the spheres in order, each one with the upper
/// bound lowered to the parameter of the best hit so far.
pub open spec fn closest_hit(spheres: Seq<Sphere>, ray: Ray, t_min: Fixed, t_max: Fixed) -> Option<Hit>
    decreases spheres.len(),
{
    if spheres.len() == 0 {
        None
    } else {
        let earlier = closest_hit(spheres.drop_last(), ray, t_min, t_max);
        let bound = match earlier {
            Some(h) => h.t,
            None => t_max,
        };
        match spheres.last().hit_spec(&ray, t_min, bound) {
            Some(h) => Some(h),
            None => earlier,
        }
    }
}

/// `h` is the hit of sphere `i` within `(t_min, t_max)`, no sphere has a hit
/// there with a smaller parameter, and no earlier sphere has one with the same
/// parameter.
pub open spec fn is_first_closest(
    spheres: Seq<Sphere>,
    ray: Ray,
    t_min: Fixed,
    t_max: Fixed,
    h: Hit,
    i: int,
) -> bool {
    &&& 0 <= i < spheres.len()
    &&& spheres[i].hit_spec(&ray, t_min, t_max) == Some(h)
    &&& forall|j: int|
        0 <= j < spheres.len() ==> match #[trigger] spheres[j].hit_spec(&ray, t_min, t_max) {
            Some(g) => h.t@ <= g.t@ && (j < i ==> h.t@ < g.t@),
            None => true,
        }
}

/// `result` is the closest hit of the ray with any of the spheres: none if no
/// sphere is hit within `(t_min, t_max)`, else the hit with the least
/// parameter, taken from the first sphere that attains it.
pub open spec fn is_closest_hit(
    spheres: Seq<Sphere>,
    ray: Ray,
    t_min: Fixed,
    t_max: Fixed,
    result: Option<Hit>,
) -> bool {
    match result {
        None => forall|j: int|
            0 <= j < spheres.len() ==> #[trigger] spheres[j].hit_spec(&ray, t_min, t_max) is None,
        Some(h) => exists|i: int| is_first_closest(spheres, ray, t_min, t_max, h, i),
    }
}

/// Visiting the spheres in order with a shrinking upper bound finds the
/// closest hit.
pub proof fn lemma_closest_hit_is_closest(spheres: Seq<Sphere>, ray: Ray, t_min: Fixed, t_max: Fixed)
    ensures
        is_closest_hit(spheres, ray, t_min, t_max, closest_hit(spheres, ray, t_min, t_max)),
    decreases spheres.len(),
{
    if spheres.len() > 0 {
        let front = spheres.drop_last();
        let last = spheres.last();
        let n = front.len() as int;
        lemma_closest_hit_is_closest(front, ray, t_min, t_max);
        let earlier = closest_hit(front, ray, t_min, t_max);
        let bound = match earlier {
            Some(h) => h.t,
            None => t_max,
        };
        assert(forall|j: int| 0 <= j < n ==> front[j] == spheres[j]);
        assert(spheres[n] == last);
        match earlier {
            Some(e) => {
                let i = choose|i: int| is_first_closest(front, ray, t_min, t_max, e, i);
                assert(front[i].hit_spec(&ray, t_min, t_max) == Some(e));
                front[i].lemma_hit_within(&ray, t_min, t_max);
                last.lemma_tighter_bound(&ray, t_min, t_max, bound);
                match last.hit_spec(&ray, t_min, bound) {
                    Some(h) => {
                        assert forall|j: int| 0 <= j < spheres.len() implies match #[trigger] spheres[j].hit_spec(
                            &ray,
                            t_min,
                            t_max,
                        ) {
                            Some(g) => h.t@ <= g.t@ && (j < n ==> h.t@ < g.t@),
                            None => true,
                        } by {
                            if j < n {
                                assert(front[j] == spheres[j]);
                            }
                        }
                        assert(is_first_closest(spheres, ray, t_min, t_max, h, n));
                    },
                    None => {
                        assert forall|j: int| 0 <= j < spheres.len() implies match #[trigger] spheres[j].hit_spec(
                            &ray,
                            t_min,
                            t_max,
                        ) {
                            Some(g) => e.t@ <= g.t@ && (j < i ==> e.t@ < g.t@),
                            None => true,
                        } by {
                            if j < n {
                                assert(front[j] == spheres[j]);
                            }
                        }
                        assert(spheres[i] == front[i]);
                        assert(is_first_closest(spheres, ray, t_min, t_max, e, i));
                    },
                }
            },
            None => {
                match last.hit_spec(&ray, t_min, t_max) {
                    Some(h) => {
                        assert forall|j: int| 0 <= j < spheres.len() implies match #[trigger] spheres[j].hit_spec(
                            &ray,
                            t_min,
                            t_max,
                        ) {
                            Some(g) => h.t@ <= g.t@ && (j < n ==> h.t@ < g.t@),
                            None => true,
                        } by {
                            if j < n {
                                assert(front[j] == spheres[j]);
                            }
                        }
                        assert(is_first_closest(spheres, ray, t_min, t_max, h, n));
                    },
                    None => {
                        assert forall|j: int| 0 <= j < spheres.len() implies #[trigger] spheres[j].hit_spec(
                            &ray,
                            t_min,
                            t_max,
                        ) is None by {
                            if j < n {
                                assert(front[j] == spheres[j]);
                            }
                        }
                    },
                }
            },
        }
    }
}

/// A scene has at most one closest hit.
pub proof fn lemma_closest_hit_unique(
    spheres: Seq<Sphere>,
    ray: Ray,
    t_min: Fixed,
    t_max: Fixed,
    first: Option<Hit>,
    second: Option<Hit>,
)
    requires
        is_closest_hit(spheres, ray, t_min, t_max, first),
        is_closest_hit(spheres, ray, t_min, t_max, second),
    ensures
        first == second,
{
    match (first, second) {
        (Some(f), Some(s)) => {
            let i = choose|i: int| is_first_closest(spheres, ray, t_min, t_max, f, i);
            let k = choose|k: int| is_first_closest(spheres, ray, t_min, t_max, s, k);
            assert(spheres[i].hit_spec(&ray, t_min, t_max) == Some(f));
            assert(spheres[k].hit_spec(&ray, t_min, t_max) == Some(s));
        },
        (Some(f), None) => {
            let i = choose|i: int| is_first_closest(spheres, ray, t_min, t_max, f, i);
            assert(spheres[i].hit_spec(&ray, t_min, t_max) == Some(f));
        },
        (None, Some(s)) => {
            let k = choose|k: int| is_first_closest(spheres, ray, t_min, t_max, s, k);
            assert(spheres[k].hit_spec(&ray, t_min, t_max) == Some(s));
        },
        (None, None) => {},
    }
}

/// Every sphere of `a` occurs in `b`.
pub open spec fn is_contained(a: Seq<Sphere>, b: Seq<Sphere>) -> bool {
    forall|i: int| 0 <= i < a.len() ==> exists|j: int| 0 <= j < b.len() && #[trigger] a[i] == #[trigger] b[j]
}

/// The order of the spheres does not matter: two collections of the same
/// spheres are hit by the same rays, at the same parameter.
pub proof fn lemma_order_is_irrelevant(a: Seq<Sphere>, b: Seq<Sphere>, ray: Ray, t_min: Fixed, t_max: Fixed)
    requires
        is_contained(a, b),
        is_contained(b, a),
    ensures
        closest_hit(a, ray, t_min, t_max) is Some <==> closest_hit(b, ray, t_min, t_max) is Some,
        closest_hit(a, ray, t_min, t_max) matches Some(f) ==> closest_hit(b, ray, t_min, t_max) matches Some(s)
            && f.t == s.t,
{
    lemma_closest_hit_is_closest(a, ray, t_min, t_max);
    lemma_closest_hit_is_closest(b, ray, t_min, t_max);
    let first = closest_hit(a, ray, t_min, t_max);
    let second = closest_hit(b, ray, t_min, t_max);
    if let Some(f) = first {
        let i = choose|i: int| is_first_closest(a, ray, t_min, t_max, f, i);
        let j = choose|j: int| 0 <= j < b.len() && a[i] == b[j];
        assert(b[j].hit_spec(&ray, t_min, t_max) == Some(f));
    }
    if let Some(s) = second {
        let i = choose|i: int| is_first_closest(b, ray, t_min, t_max, s, i);
        let j = choose|j: int| 0 <= j < a.len() && b[i] == a[j];
        assert(a[j].hit_spec(&ray, t_min, t_max) == Some(s));
    }
}

impl Scene {
    /// The empty scene.
    pub fn new() -> (s: Scene)
        ensures
            s@ == Seq::<Sphere>::empty(),
    {
        let scenery: Vec<Sphere> = Vec::new();
        Scene { scenery }
    }

    /// Appends `obj` to the scene.
    pub fn add_object(&mut self, obj: Sphere)
        ensures
            final(self)@ == old(self)@.push(obj),
    {
        self.scenery.push(obj);
    }

    /// The number of objects in the scene.
    pub fn len(&self) -> (n: usize)
        ensures
            n == self@.len(),
    {
        self.scenery.len()
    }
}

impl Hitable for Scene {
    open spec fn hit_spec(&self, ray: &Ray, t_min: Fixed, t_max: Fixed) -> Option<Hit> {
        closest_hit(self@, *ray, t_min, t_max)
    }

    /// The closest hit of the ray with any object of the scene.
    fn hit(&self, ray: &Ray, t_min: Fixed, t_max: Fixed) -> (r: Option<Hit>)
        ensures
            is_closest_hit(self@, *ray, t_min, t_max, r),
    {
        let mut best: Option<Hit> = None;
        let mut i: usize = 0;
        while i < self.scenery.len()
            invariant
                i <= self.scenery.len(),
                best == closest_hit(self@.take(i as int), *ray, t_min, t_max),
            decreases self.scenery.len() - i,
        {
            let bound: Fixed = match best {
                Some(h) => h.t,
                None => t_max,
            };
            proof {
                assert(self@.take(i + 1).drop_last() =~= self@.take(i as int));
                assert(self@.take(i + 1).last() == self@[i as int]);
            }
            match self.scenery[i].hit(ray, t_min, bound) {
                Some(h) => {
                    best = Some(h);
                },
                None => {},
            }
            i += 1;
        }
        proof {
            assert(self@.take(i as int) =~= self@);
            lemma_closest_hit_is_closest(self@, *ray, t_min, t_max);
            if let Some(h) = best {
                let k = choose|k: int| is_first_closest(self@, *ray, t_min, t_max, h, k);
                self@[k].lemma_hit_within(ray, t_min, t_max);
            }
        }
        best
    }
}

} // verus!
