use vstd::prelude::*;
use crate::element::sphere::Crossing;
use crate::material::surface_type::{Bounce, Surface};
use crate::material::Material;
use crate::scalar::Scalar;
use crate::scene::Scene;
use crate::vector::Vector3;

verus! {

/// The most segments a path may have.
pub const MAX_RECURSION: u32 = 100;

/// Bit pattern of one thousandth: hits closer than this to a ray's origin are
/// passed over, so that a scattered ray does not hit the surface it leaves.
pub const T_MIN_BITS: u32 = 0x3a83_126f;

/// Bit pattern of the largest finite number: hits are looked for up to there.
pub const T_MAX_BITS: u32 = 0x7f7f_ffff;

/// A half-line: where it starts and where it points.
#[derive(Clone, Copy, Debug, PartialEq, Eq, Structural)]
pub struct Ray {
    pub origin: Vector3,
    pub direction: Vector3,
}

/// The closest hit found so far along a ray: its ray parameter, the point,
/// and the surface normal there.
#[derive(Clone, Copy, Debug, PartialEq, Eq, Structural)]
pub struct Record {
    pub t: Scalar,
    pub p: Vector3,
    pub n: Vector3,
}

/// What becomes of a path after one more segment of it was followed.
#[derive(Clone, Copy, Debug, PartialEq, Eq, Structural)]
pub enum Step {
    /// The ray was scattered and the path goes on. Its colour is to be
    /// multiplied by the albedo given.
    Scattered(Vector3),
    /// The ray was scattered, but the path may have no more segments. Its
    /// colour, multiplied by the albedo given, is final.
    Spent(Vector3),
    /// The surface swallowed the ray: the path is black.
    Absorbed,
    /// The ray hit nothing: the path's colour, multiplied by that of the sky
    /// in the ray's direction, is final.
    Escaped,
}

impl Record {
    pub open spec fn origin_spec() -> Record {
        Record {
            t: Scalar { bits: 0 },
            p: Vector3::of_bits(0, 0, 0),
            n: Vector3::of_bits(0, 0, 0),
        }
    }

    /// The record a path starts with: all zero.
    pub fn new() -> (hr: Record)
        ensures
            hr == Record::origin_spec(),
    {
        Record { t: Scalar::zero(), p: Vector3::from_bits(0, 0, 0), n: Vector3::from_bits(0, 0, 0) }
    }
}

impl Ray {
    /// The lower end of the range in which a path looks for hits.
    pub open spec fn t_min() -> Scalar {
        Scalar { bits: T_MIN_BITS }
    }

    /// The upper end of the range in which a path looks for hits.
    pub open spec fn t_max() -> Scalar {
        Scalar { bits: T_MAX_BITS }
    }

    /// What a path's search of `scene` finds: the material of the nearest
    /// primitive that the ray meets in the path's range, if any.
    pub open spec fn found(scene: &Scene, crossings: Seq<Crossing>, rec: Record) -> Option<
        &Material,
    > {
        match scene.search(crossings, Ray::t_min(), Ray::t_max(), rec).winner {
            Some(k) => Some(&scene.spheres@[k].material),
            None => None,
        }
    }

    /// Searches `scene` for the nearest hit of this ray in the range of a
    /// path, and puts it on record. `crossings[i]` tells where the ray meets
    /// the scene's primitive `i`.
    pub fn nearest<'a>(&self, scene: &'a Scene, crossings: &Vec<Crossing>, hr: &mut Record) -> (mat:
        Option<&'a Material>)
        ensures
            *final(hr) == scene.search(crossings@, Ray::t_min(), Ray::t_max(), *old(hr)).rec,
            mat == Ray::found(scene, crossings@, *old(hr)),
    {
        scene.traverse(
            crossings,
            Scalar::from_bits(T_MIN_BITS),
            Scalar::from_bits(T_MAX_BITS),
            hr,
        )
    }

    /// A path whose ray meets no primitive in its range escapes to the sky,
    /// and only such a path does: it is never black for want of a hit.
    pub proof fn lemma_miss_shows_sky(
        scene: &Scene,
        crossings: Seq<Crossing>,
        rec: Record,
        b: Bounce,
        depth: u32,
    )
        ensures
            (forall|i: int|
                0 <= i < scene.tested(crossings) ==> !(#[trigger] crossings[i]).reaches(
                    Ray::t_min(),
                    Ray::t_max(),
                )) <==> Ray::found(scene, crossings, rec) is None,
            Ray::found(scene, crossings, rec) is None <==> Ray::verdict(
                Ray::found(scene, crossings, rec),
                b,
                depth,
            ) == Step::Escaped,
    {
        scene.lemma_search_misses(crossings, Ray::t_min(), Ray::t_max(), rec);
    }

    /// A path that hits a mirror is black exactly when the reflected
    /// direction does not point away from the surface: when its dot product
    /// with the normal is zero, negative, or no number. Else the path goes on
    /// along the reflected direction, tinted by the mirror's albedo.
    pub proof fn lemma_mirror(m: &Material, b: Bounce, depth: u32)
        requires
            m.surface == Surface::Metallic,
        ensures
            b.facing.is_nan_spec() || b.facing.units() <= 0 <==> Ray::verdict(Some(m), b, depth)
                == Step::Absorbed,
            !b.facing.is_nan_spec() && b.facing.units() > 0 <==> Ray::verdict(Some(m), b, depth)
                == Step::Scattered(m.albedo) || Ray::verdict(Some(m), b, depth) == Step::Spent(
                m.albedo,
            ),
            m.surface.outgoing(b) == b.reflected,
    {
    }

    /// No path has more than `MAX_RECURSION` segments: if segment after
    /// segment of a path, counted from zero, was scattered on, there are
    /// fewer of them than that, and the one that follows is the last.
    pub proof fn lemma_paths_end(hits: Seq<Option<&Material>>, ways: Seq<Bounce>)
        requires
            hits.len() == ways.len(),
            hits.len() <= u32::MAX,
            forall|k: int|
                0 <= k < hits.len() ==> #[trigger] Ray::verdict(hits[k], ways[k], k as u32)
                    is Scattered,
        ensures
            hits.len() < MAX_RECURSION,
            forall|hit: Option<&Material>, b: Bounce|
                hits.len() + 1 == MAX_RECURSION ==> !(#[trigger] Ray::verdict(
                    hit,
                    b,
                    hits.len() as u32,
                ) is Scattered),
    {
        if hits.len() > 0 {
            let last = hits.len() - 1;
            assert(Ray::verdict(hits[last], ways[last], last as u32) is Scattered);
        }
    }

    /// What becomes of a path whose segment number `depth` (counted from
    /// zero) ended as `hit` says, on a surface that picked from `b`.
    pub open spec fn verdict(hit: Option<&Material>, b: Bounce, depth: u32) -> Step {
        match hit {
            None => Step::Escaped,
            Some(m) => if !m.surface.survives(b) {
                Step::Absorbed
            } else if depth + 1 < MAX_RECURSION {
                Step::Scattered(m.albedo)
            } else {
                Step::Spent(m.albedo)
            },
        }
    }

    /// Follows the path one segment further. `hit` is what the search of the
    /// scene found for this ray, `hr` the record of that hit, `b` the ways
    /// out of it, `depth` the number of segments already behind the path.
    ///
    /// On a hit the ray becomes the next segment, whether it survives or not;
    /// on a miss it stays. The path goes on only with `Scattered`, and never
    /// beyond `MAX_RECURSION` segments.
    pub fn color(&mut self, hit: Option<&Material>, hr: &mut Record, b: &Bounce, depth: u32) -> (step:
        Step)
        ensures
            step == Ray::verdict(hit, *b, depth),
            *final(self) == (match hit {
                Some(m) => Ray { origin: old(hr).p, direction: m.surface.outgoing(*b) },
                None => *old(self),
            }),
            *final(hr) == *old(hr),
            step is Scattered ==> depth + 1 < MAX_RECURSION,
    {
        match hit {
            Some(mat) => {
                let ret = mat.surface.scat(self, hr, b);
                if ret {
                    if depth < MAX_RECURSION - 1 {
                        Step::Scattered(mat.albedo)
                    } else {
                        Step::Spent(mat.albedo)
                    }
                } else {
                    Step::Absorbed
                }
            },
            None => Step::Escaped,
        }
    }
}

} // verus!
