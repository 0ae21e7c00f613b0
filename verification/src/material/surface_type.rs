use vstd::prelude::*;
use vstd::arithmetic::div_mod::lemma_fundamental_div_mod;
use vstd::set_lib::{lemma_int_range, set_int_range};
use crate::ray::{Ray, Record};
use crate::scalar::Scalar;
use crate::vector::Vector3;

verus! {

/// The scattering laws.
#[derive(Clone, Copy, Debug, PartialEq, Eq, Structural)]
pub enum Surface {
    /// Diffuse: the ray leaves in a random direction about the normal.
    Lambertian,
    /// Mirror: the ray is reflected, or absorbed where the reflection would
    /// point into the surface.
    Metallic,
    /// Glass: the ray is reflected or refracted, by chance.
    Dielectric,
}

/// One way through a glass surface: into the glass, or out of it.
#[derive(Clone, Copy, Debug, PartialEq, Eq, Structural)]
pub struct Passage {
    /// The refracted direction, where there is one.
    pub refracted: Vector3,
    /// The discriminant of the refraction formula. There is a refracted
    /// direction exactly when it is greater than zero.
    pub bend: Scalar,
    /// The share of light that is reflected at this angle.
    pub reflectance: Scalar,
}

/// The directions in which a ray may leave a hit, with the numbers that
/// decide between them. The caller works them out from the ray and the hit
/// record; the surface then chooses. A field that the surface at hand does
/// not read may hold anything.
#[derive(Clone, Copy, Debug, PartialEq, Eq, Structural)]
pub struct Bounce {
    /// Lambertian: the unit vector along the normal plus a random offset.
    pub diffuse: Vector3,
    /// Metallic and Dielectric: the incoming unit direction mirrored about
    /// the normal.
    pub reflected: Vector3,
    /// Metallic: the dot product of `reflected` and the normal.
    pub facing: Scalar,
    /// Dielectric: the dot product of the incoming direction and the normal.
    pub incidence: Scalar,
    /// Dielectric: the way into the glass, refracted about the normal.
    pub entering: Passage,
    /// Dielectric: the way out of the glass, refracted about the normal
    /// turned round.
    pub leaving: Passage,
    /// Dielectric: a number drawn uniformly from zero up to, not including,
    /// one.
    pub sample: Scalar,
}

impl Passage {
    /// Whether a ray with the draw `sample` goes through: a refracted
    /// direction exists, and the draw did not fall under the reflectance.
    /// Without a refracted direction the ray is always reflected.
    pub open spec fn lets_through(self, sample: Scalar) -> bool {
        self.bend.gt_spec(Scalar::zero()) && !sample.lt_spec(self.reflectance)
    }
}

impl Bounce {
    /// Whether the ray comes from outside: it runs against the normal, or
    /// along the surface.
    pub open spec fn enters(self) -> bool {
        self.incidence.le_spec(Scalar::zero())
    }

    /// The way through the glass on the side from which the ray comes.
    pub open spec fn passage(self) -> Passage {
        if self.enters() {
            self.entering
        } else {
            self.leaving
        }
    }

    /// Whether glass lets the ray through.
    pub open spec fn refracts(self) -> bool {
        self.passage().lets_through(self.sample)
    }

    /// The same bounce with another number drawn.
    pub open spec fn with_sample(self, sample: Scalar) -> Bounce {
        Bounce { sample, ..self }
    }

    /// Where glass has a refracted direction to offer, the draw alone
    /// decides: the ray is refracted exactly when the number drawn is not
    /// below the reflectance.
    pub proof fn lemma_glass_goes_by_the_draw(self)
        requires
            self.passage().bend.gt_spec(Scalar::zero()),
            !self.sample.is_nan_spec(),
            !self.passage().reflectance.is_nan_spec(),
        ensures
            self.refracts() <==> self.sample.units() >= self.passage().reflectance.units(),
            Surface::Dielectric.outgoing(self) == if self.sample.units()
                >= self.passage().reflectance.units() {
                self.passage().refracted
            } else {
                self.reflected
            },
    {
    }

    /// Of draws spread evenly from zero up to one, the share that glass
    /// refracts is one less the reflectance, rounded down to a whole number
    /// of draws. Here `draws[k]` is the number `k * step`, one is the number
    /// `draws.len() * step`, and the reflectance lies between zero and one.
    pub proof fn lemma_glass_share(self, draws: Seq<Scalar>, step: int)
        requires
            step > 0,
            forall|k: int|
                0 <= k < draws.len() ==> !(#[trigger] draws[k]).is_nan_spec() && draws[k].units()
                    == k * step,
            self.passage().bend.gt_spec(Scalar::zero()),
            !self.passage().reflectance.is_nan_spec(),
            0 <= self.passage().reflectance.units() <= draws.len() * step,
        ensures
            ({
                let one = draws.len() * step;
                let reflectance = self.passage().reflectance.units();
                let through = Set::new(
                    |k: int| 0 <= k < draws.len() && self.with_sample(draws[k]).refracts(),
                );
                &&& through.finite()
                &&& through.len() <= draws.len()
                &&& through.len() * step <= one - reflectance < (through.len() + 1) * step
            }),
    {
        let n = draws.len() as int;
        let r = self.passage().reflectance.units();
        let through = Set::new(
            |k: int| 0 <= k < draws.len() && self.with_sample(draws[k]).refracts(),
        );
        let m = (r + step - 1) / step;
        lemma_fundamental_div_mod(r + step - 1, step);
        let rest = (r + step - 1) % step;
        assert(0 <= rest < step);
        assert(step * m == r + step - 1 - rest);
        assert(m * step >= r && (m - 1) * step < r) by (nonlinear_arith)
            requires
                step * m == r + step - 1 - rest,
                0 <= rest < step,
        ;
        assert(0 <= m <= n) by (nonlinear_arith)
            requires
                m * step >= r,
                (m - 1) * step < r,
                0 <= r <= n * step,
                step > 0,
        ;
        assert forall|k: int| through.contains(k) <==> set_int_range(m, n).contains(k) by {
            if 0 <= k < n {
                assert(self.with_sample(draws[k]).passage() == self.passage());
                assert(self.with_sample(draws[k]).refracts() <==> draws[k].units() >= r);
                assert(k * step >= r <==> k >= m) by (nonlinear_arith)
                    requires
                        m * step >= r,
                        (m - 1) * step < r,
                        step > 0,
                ;
            }
        }
        assert(through =~= set_int_range(m, n));
        lemma_int_range(m, n);
        assert((n - m) * step <= n * step - r && n * step - r < (n - m + 1) * step)
            by (nonlinear_arith)
            requires
                m * step >= r,
                (m - 1) * step < r,
        ;
    }

    /// Without a refracted direction glass reflects, whatever was drawn.
    pub proof fn lemma_glass_reflects_totally(self)
        requires
            !self.passage().bend.gt_spec(Scalar::zero()),
        ensures
            !self.refracts(),
            Surface::Dielectric.outgoing(self) == self.reflected,
    {
    }
}

impl Surface {
    /// Whether a ray that hits this surface goes on. Only a mirror absorbs,
    /// and only a ray whose reflection does not leave the surface.
    pub open spec fn survives(self, b: Bounce) -> bool {
        match self {
            Surface::Lambertian => true,
            Surface::Metallic => b.facing.gt_spec(Scalar::zero()),
            Surface::Dielectric => true,
        }
    }

    /// The direction in which the ray leaves the hit.
    pub open spec fn outgoing(self, b: Bounce) -> Vector3 {
        match self {
            Surface::Lambertian => b.diffuse,
            Surface::Metallic => b.reflected,
            Surface::Dielectric => if b.refracts() {
                b.passage().refracted
            } else {
                b.reflected
            },
        }
    }

    /// Turns `ray` into its next segment: it starts at the hit point and
    /// leaves in the direction that this surface picks from `b`. The answer
    /// tells whether the ray goes on. The hit record is read, never changed.
    pub fn scat(self, ray: &mut Ray, hr: &mut Record, b: &Bounce) -> (alive: bool)
        ensures
            alive == self.survives(*b),
            final(ray).origin == old(hr).p,
            final(ray).direction == self.outgoing(*b),
            *final(hr) == *old(hr),
    {
        match self {
            Surface::Lambertian => self.scat_lamb(ray, hr, b),
            Surface::Metallic => self.scat_metal(ray, hr, b),
            Surface::Dielectric => self.scat_dielectric(ray, hr, b),
        }
    }

    fn scat_lamb(self, ray: &mut Ray, hr: &mut Record, b: &Bounce) -> (alive: bool)
        ensures
            alive,
            *final(ray) == (Ray { origin: old(hr).p, direction: b.diffuse }),
            *final(hr) == *old(hr),
    {
        ray.origin = hr.p;
        ray.direction = b.diffuse;
        true
    }

    fn scat_metal(self, ray: &mut Ray, hr: &mut Record, b: &Bounce) -> (alive: bool)
        ensures
            alive == b.facing.gt_spec(Scalar::zero()),
            *final(ray) == (Ray { origin: old(hr).p, direction: b.reflected }),
            *final(hr) == *old(hr),
    {
        ray.origin = hr.p;
        ray.direction = b.reflected;
        b.facing.gt(Scalar::zero())
    }

    fn scat_dielectric(self, ray: &mut Ray, hr: &mut Record, b: &Bounce) -> (alive: bool)
        ensures
            alive,
            *final(ray) == (Ray {
                origin: old(hr).p,
                direction: if b.refracts() {
                    b.passage().refracted
                } else {
                    b.reflected
                },
            }),
            *final(hr) == *old(hr),
    {
        let side = if b.incidence.le(Scalar::zero()) {
            b.entering
        } else {
            b.leaving
        };
        ray.origin = hr.p;
        if side.bend.gt(Scalar::zero()) && !b.sample.lt(side.reflectance) {
            ray.direction = side.refracted;
        } else {
            ray.direction = b.reflected;
        }
        true
    }
}

} // verus!
