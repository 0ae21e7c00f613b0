use vstd::prelude::*;
use crate::element::sphere::{in_reach, Crossing, Sphere};
use crate::material::surface_type::Surface;
use crate::material::Material;
use crate::ray::Record;
use crate::scalar::Scalar;
use crate::vector::Vector3;

verus! {

/// How many spheres every scene starts with.
pub const FIXED: usize = 4;

/// How many spheres the standard scene holds: the fixed ones and the pebbles,
/// one to a cell of the grid.
pub const CAPACITY: usize = 30;

/// How many cells a row of the grid has.
pub const ROW: usize = 10;

/// Bit pattern of a pebble's radius, one fifth.
pub const PEBBLE_RADIUS_BITS: u32 = 0x3e4c_cccd;

/// The primitives of a scene, in the order in which a ray is tested against
/// them.
pub struct Scene {
    pub spheres: Vec<Sphere>,
}

/// How far a search has come: the closest hit on record, and the place in
/// the scene of the primitive that made it.
pub struct Sweep {
    pub rec: Record,
    pub winner: Option<int>,
}

/// The search of the first `n` crossings, one after the other, from the
/// record `start`: each crossing may replace the record by a closer hit.
pub open spec fn sweep(crossings: Seq<Crossing>, t_min: Scalar, start: Record, n: nat) -> Sweep
    decreases n,
{
    if n == 0 {
        Sweep { rec: start, winner: None }
    } else {
        let before = sweep(crossings, t_min, start, (n - 1) as nat);
        match crossings[n - 1].offer(t_min, before.rec.t) {
            Some(found) => Sweep { rec: found, winner: Some(n - 1) },
            None => before,
        }
    }
}

/// What holds of a search at every stage.
proof fn lemma_sweep(crossings: Seq<Crossing>, t_min: Scalar, start: Record, n: nat)
    requires
        n <= crossings.len(),
    ensures
        ({
            let s = sweep(crossings, t_min, start, n);
            &&& s.rec.t == start.t || s.rec.t.lt_spec(start.t)
            &&& s.winner is None ==> s.rec == start && forall|i: int|
                0 <= i < n ==> !(#[trigger] crossings[i]).reaches(t_min, start.t)
            &&& s.winner matches Some(k) ==> {
                &&& 0 <= k < n
                &&& crossings[k].meets()
                &&& s.rec == crossings[k].near || s.rec == crossings[k].far
                &&& in_reach(s.rec.t, t_min, start.t)
                &&& forall|i: int|
                    0 <= i < k && (#[trigger] crossings[i]).meets() ==> {
                        &&& in_reach(crossings[i].near.t, t_min, start.t) ==> s.rec.t.lt_spec(
                            crossings[i].near.t,
                        )
                        &&& crossings[i].in_order() && in_reach(crossings[i].far.t, t_min, start.t)
                            ==> s.rec.t.lt_spec(crossings[i].far.t)
                    }
            }
            &&& forall|i: int|
                0 <= i < n && (#[trigger] crossings[i]).meets() ==> {
                    &&& in_reach(crossings[i].near.t, t_min, start.t) ==> !crossings[i].near.t.lt_spec(
                        s.rec.t,
                    )
                    &&& crossings[i].in_order() && in_reach(crossings[i].far.t, t_min, start.t)
                        ==> !crossings[i].far.t.lt_spec(s.rec.t)
                }
        }),
    decreases n,
{
    if n > 0 {
        lemma_sweep(crossings, t_min, start, (n - 1) as nat);
        let before = sweep(crossings, t_min, start, (n - 1) as nat);
        let s = sweep(crossings, t_min, start, n);
        let c = crossings[n - 1];
        assert(s.winner is None ==> !c.reaches(t_min, start.t));
    }
}

impl Scene {
    /// The ground, a sphere of radius one thousand that touches the origin
    /// from below, matte and half grey.
    pub open spec fn ground() -> Sphere {
        Sphere {
            material: Material {
                surface: Surface::Lambertian,
                albedo: Vector3::of_bits(0x3f00_0000, 0x3f00_0000, 0x3f00_0000),
            },
            center: Vector3::of_bits(0, 0xc47a_0000, 0),
            radius: Scalar { bits: 0x447a_0000 },
        }
    }

    /// A violet mirror ball of radius one that stands on the origin.
    pub open spec fn mirror() -> Sphere {
        Sphere {
            material: Material {
                surface: Surface::Metallic,
                albedo: Vector3::of_bits(0x3ecc_cccd, 0x3e4c_cccd, 0x3f19_999a),
            },
            center: Vector3::of_bits(0, 0x3f80_0000, 0),
            radius: Scalar { bits: 0x3f80_0000 },
        }
    }

    /// A clear glass ball of radius one, towards the viewer.
    pub open spec fn glass() -> Sphere {
        Sphere {
            material: Material {
                surface: Surface::Dielectric,
                albedo: Vector3::of_bits(0x3f80_0000, 0x3f80_0000, 0x3f80_0000),
            },
            center: Vector3::of_bits(0xbf00_0000, 0x3f80_0000, 0x40d0_0000),
            radius: Scalar { bits: 0x3f80_0000 },
        }
    }

    /// A matte orange ball of radius one, to the right.
    pub open spec fn matte() -> Sphere {
        Sphere {
            material: Material {
                surface: Surface::Lambertian,
                albedo: Vector3::of_bits(0x3f4c_cccd, 0x3ecc_cccd, 0x3e4c_cccd),
            },
            center: Vector3::of_bits(0x4060_0000, 0x3f80_0000, 0x4108_0000),
            radius: Scalar { bits: 0x3f80_0000 },
        }
    }

    /// A pebble: a small matte sphere of the given centre and colour.
    pub open spec fn pebble(center: Vector3, albedo: Vector3) -> Sphere {
        Sphere {
            material: Material { surface: Surface::Lambertian, albedo },
            center,
            radius: Scalar { bits: PEBBLE_RADIUS_BITS },
        }
    }

    /// The spheres of the scene with the given pebbles, centre and colour
    /// each: the four fixed ones, then the pebbles in their order.
    pub open spec fn layout(pebbles: Seq<(Vector3, Vector3)>) -> Seq<Sphere> {
        seq![Scene::ground(), Scene::mirror(), Scene::glass(), Scene::matte()] + Seq::new(
            pebbles.len(),
            |i: int| Scene::pebble(pebbles[i].0, pebbles[i].1),
        )
    }

    /// Builds the scene: ground, mirror, glass and matte ball, then one
    /// pebble for every pair of centre and colour in `pebbles`.
    pub fn new(pebbles: &Vec<(Vector3, Vector3)>) -> (scene: Scene)
        ensures
            scene.spheres@ == Scene::layout(pebbles@),
    {
        let mut spheres: Vec<Sphere> = Vec::with_capacity(CAPACITY);
        spheres.push(
            Sphere {
                material: Material {
                    surface: Surface::Lambertian,
                    albedo: Vector3::from_bits(0x3f00_0000, 0x3f00_0000, 0x3f00_0000),
                },
                center: Vector3::from_bits(0, 0xc47a_0000, 0),
                radius: Scalar::from_bits(0x447a_0000),
            },
        );
        spheres.push(
            Sphere {
                material: Material {
                    surface: Surface::Metallic,
                    albedo: Vector3::from_bits(0x3ecc_cccd, 0x3e4c_cccd, 0x3f19_999a),
                },
                center: Vector3::from_bits(0, 0x3f80_0000, 0),
                radius: Scalar::from_bits(0x3f80_0000),
            },
        );
        spheres.push(
            Sphere {
                material: Material {
                    surface: Surface::Dielectric,
                    albedo: Vector3::from_bits(0x3f80_0000, 0x3f80_0000, 0x3f80_0000),
                },
                center: Vector3::from_bits(0xbf00_0000, 0x3f80_0000, 0x40d0_0000),
                radius: Scalar::from_bits(0x3f80_0000),
            },
        );
        spheres.push(
            Sphere {
                material: Material {
                    surface: Surface::Lambertian,
                    albedo: Vector3::from_bits(0x3f4c_cccd, 0x3ecc_cccd, 0x3e4c_cccd),
                },
                center: Vector3::from_bits(0x4060_0000, 0x3f80_0000, 0x4108_0000),
                radius: Scalar::from_bits(0x3f80_0000),
            },
        );
        let mut i: usize = 0;
        while i < pebbles.len()
            invariant
                i <= pebbles.len(),
                spheres@ =~= Scene::layout(pebbles@.take(i as int)),
            decreases pebbles.len() - i,
        {
            let (center, albedo) = pebbles[i];
            spheres.push(
                Sphere {
                    material: Material { surface: Surface::Lambertian, albedo },
                    center,
                    radius: Scalar::from_bits(PEBBLE_RADIUS_BITS),
                },
            );
            i += 1;
        }
        assert(pebbles@.take(pebbles@.len() as int) =~= pebbles@);
        Scene { spheres }
    }

    /// The cell of the grid on which the scene's sphere number `i` is laid
    /// out: cells are numbered along the rows, ten to a row.
    pub fn grid_cell(i: usize) -> (cell: (usize, usize))
        ensures
            cell.0 == i / 10,
            cell.1 == i % 10,
            cell.0 * 10 + cell.1 == i,
            cell.1 < 10,
    {
        let grid_x: usize = i / ROW;
        let grid_y: usize = i - ROW * grid_x;
        (grid_x, grid_y)
    }

    /// How many primitives a search tests: all of them, as far as there are
    /// crossings for them.
    pub open spec fn tested(&self, crossings: Seq<Crossing>) -> nat {
        if self.spheres@.len() <= crossings.len() {
            self.spheres@.len()
        } else {
            crossings.len()
        }
    }

    /// The outcome of a search of this scene from `t_max`.
    pub open spec fn search(
        &self,
        crossings: Seq<Crossing>,
        t_min: Scalar,
        t_max: Scalar,
        rec: Record,
    ) -> Sweep {
        sweep(crossings, t_min, Record { t: t_max, p: rec.p, n: rec.n }, self.tested(crossings))
    }

    /// Finds the nearest hit of a ray between `t_min` and `t_max`, both
    /// excluded. `crossings[i]` tells where the ray meets `spheres[i]`.
    ///
    /// The record's parameter is first set to `t_max`; then every primitive is
    /// tested in turn against the same record, so that each can only bring
    /// the hit closer. The material of the last primitive that did so is
    /// returned, with its hit on record; where none did, nothing is returned
    /// and the record keeps its point and normal.
    pub fn traverse(
        &self,
        crossings: &Vec<Crossing>,
        t_min: Scalar,
        t_max: Scalar,
        rec: &mut Record,
    ) -> (mat: Option<&Material>)
        ensures
            *final(rec) == self.search(crossings@, t_min, t_max, *old(rec)).rec,
            match self.search(crossings@, t_min, t_max, *old(rec)).winner {
                Some(k) => 0 <= k < self.spheres@.len() && mat == Some(&self.spheres@[k].material),
                None => mat is None,
            },
    {
        rec.t = t_max;
        let ghost start = *rec;
        let n: usize = if self.spheres.len() <= crossings.len() {
            self.spheres.len()
        } else {
            crossings.len()
        };
        let mut mat: Option<&Material> = None;
        let mut i: usize = 0;
        while i < n
            invariant
                i <= n,
                n == self.tested(crossings@),
                *rec == sweep(crossings@, t_min, start, i as nat).rec,
                match sweep(crossings@, t_min, start, i as nat).winner {
                    Some(k) => 0 <= k < i && mat == Some(&self.spheres@[k].material),
                    None => mat is None,
                },
            decreases n - i,
        {
            let ret = self.spheres[i].hit(&crossings[i], t_min, rec);
            if ret.is_some() {
                mat = ret;
            }
            i += 1;
        }
        mat
    }

    /// A search never moves the record beyond `t_max`, and a hit lies
    /// strictly between `t_min` and `t_max`, on the primitive that is named.
    pub proof fn lemma_search_tightens(
        &self,
        crossings: Seq<Crossing>,
        t_min: Scalar,
        t_max: Scalar,
        rec: Record,
    )
        ensures
            ({
                let s = self.search(crossings, t_min, t_max, rec);
                &&& s.rec.t == t_max || s.rec.t.lt_spec(t_max)
                &&& s.winner is None ==> s.rec == (Record { t: t_max, p: rec.p, n: rec.n })
                &&& s.winner matches Some(k) ==> {
                    &&& 0 <= k < self.tested(crossings)
                    &&& crossings[k].meets()
                    &&& s.rec == crossings[k].near || s.rec == crossings[k].far
                    &&& in_reach(s.rec.t, t_min, t_max)
                }
            }),
    {
        lemma_sweep(
            crossings,
            t_min,
            Record { t: t_max, p: rec.p, n: rec.n },
            self.tested(crossings),
        );
    }

    /// A search comes back empty exactly when no primitive is met between
    /// `t_min` and `t_max`.
    pub proof fn lemma_search_misses(
        &self,
        crossings: Seq<Crossing>,
        t_min: Scalar,
        t_max: Scalar,
        rec: Record,
    )
        ensures
            self.search(crossings, t_min, t_max, rec).winner is None <==> forall|i: int|
                0 <= i < self.tested(crossings) ==> !(#[trigger] crossings[i]).reaches(
                    t_min,
                    t_max,
                ),
    {
        let start = Record { t: t_max, p: rec.p, n: rec.n };
        let s = self.search(crossings, t_min, t_max, rec);
        lemma_sweep(crossings, t_min, start, self.tested(crossings));
        if s.winner is Some {
            let k = s.winner->Some_0;
            assert(crossings[k].reaches(t_min, t_max));
        }
    }

    /// A search returns the nearest hit. Of all primitives that the ray meets
    /// between `t_min` and `t_max`, none is met before the hit on record:
    /// not at the root tried first, and, where the roots come in order, not
    /// at the other one. Between equal hits the primitive that comes first in
    /// the scene wins: whatever comes before the winner is met strictly
    /// later.
    pub proof fn lemma_search_finds_nearest(
        &self,
        crossings: Seq<Crossing>,
        t_min: Scalar,
        t_max: Scalar,
        rec: Record,
        i: int,
    )
        requires
            0 <= i < self.tested(crossings),
            crossings[i].meets(),
        ensures
            ({
                let s = self.search(crossings, t_min, t_max, rec);
                let c = crossings[i];
                &&& c.reaches(t_min, t_max) ==> s.winner is Some
                &&& in_reach(c.near.t, t_min, t_max) ==> !c.near.t.lt_spec(s.rec.t)
                &&& c.in_order() && in_reach(c.far.t, t_min, t_max) ==> !c.far.t.lt_spec(s.rec.t)
                &&& s.winner matches Some(k) ==> (k > i ==> {
                    &&& in_reach(c.near.t, t_min, t_max) ==> s.rec.t.lt_spec(c.near.t)
                    &&& c.in_order() && in_reach(c.far.t, t_min, t_max) ==> s.rec.t.lt_spec(
                        c.far.t,
                    )
                })
            }),
    {
        let start = Record { t: t_max, p: rec.p, n: rec.n };
        lemma_sweep(crossings, t_min, start, self.tested(crossings));
        self.lemma_search_misses(crossings, t_min, t_max, rec);
    }
}

} // verus!
