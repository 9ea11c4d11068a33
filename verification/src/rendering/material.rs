use crate::math::rank::Rank;
use vstd::prelude::*;

verus! {

/// What a surface gives off where a path ends on it.
#[derive(Clone, Copy, Debug, PartialEq, Eq, Structural)]
pub enum Emission {
    /// Nothing: black.
    Black,
    /// A colour that shows which way the surface faces: half the sum of the unit
    /// normal and the all-ones vector.
    Normal,
}

/// Dummy material that absorbs all light.
#[derive(Clone, Copy, Debug, PartialEq)]
pub struct DummyMaterial;

/// A diffuse material.
#[derive(Clone, Copy, Debug, PartialEq)]
pub struct Lambertian<V> {
    pub albedo: V,
}

/// A material that shows the surface normal instead of shading.
#[derive(Clone, Copy, Debug, PartialEq)]
pub struct NormalVisualizer;

/// A mirror whose reflection is blurred by `fuzz`.
#[derive(Clone, Copy, Debug, PartialEq)]
pub struct Metal<V, S> {
    pub albedo: V,
    pub fuzz: S,
}

/// The materials that a surface can have.
#[derive(Clone, Copy, Debug, PartialEq)]
pub enum Material<V, S> {
    Dummy(DummyMaterial),
    Lambertian(Lambertian<V>),
    NormalVisualizer(NormalVisualizer),
    Metal(Metal<V, S>),
}

impl DummyMaterial {
    /// Never scatters.
    pub fn scatter<V>(&self, facing: Rank) -> (attenuation: Option<V>)
        ensures
            attenuation is None,
    {
        None
    }

    /// Gives off nothing.
    pub fn emitted(&self) -> (e: Emission)
        ensures
            e == Emission::Black,
    {
        Emission::Black
    }
}

impl<V: Copy> Lambertian<V> {
    /// The diffuse material that reflects the share `albedo` of the light.
    pub fn new(albedo: V) -> (m: Self)
        ensures
            m.albedo == albedo,
    {
        Lambertian { albedo }
    }

    /// Always scatters, and attenuates by the albedo.
    pub fn scatter(&self, facing: Rank) -> (attenuation: Option<V>)
        ensures
            attenuation == Some(self.albedo),
    {
        Some(self.albedo)
    }

    /// Gives off nothing.
    pub fn emitted(&self) -> (e: Emission)
        ensures
            e == Emission::Black,
    {
        Emission::Black
    }
}

impl NormalVisualizer {
    /// Never scatters.
    pub fn scatter<V>(&self, facing: Rank) -> (attenuation: Option<V>)
        ensures
            attenuation is None,
    {
        None
    }

    /// Gives off the colour of the surface normal.
    pub fn emitted(&self) -> (e: Emission)
        ensures
            e == Emission::Normal,
    {
        Emission::Normal
    }
}

impl<V: Copy, S: Copy> Metal<V, S> {
    /// The mirror that reflects the share `albedo` of the light, blurred by
    /// `fuzz`.
    pub fn new(albedo: V, fuzz: S) -> (m: Self)
        ensures
            m.albedo == albedo,
            m.fuzz == fuzz,
    {
        Metal { albedo, fuzz }
    }

    /// Scatters, attenuating by the albedo, unless the blurred reflection points
    /// into the surface: `facing`, the rank of its dot product with the normal, is
    /// then zero or below, and the path is absorbed.
    pub fn scatter(&self, facing: Rank) -> (attenuation: Option<V>)
        ensures
            attenuation == if facing > 0 {
                Some(self.albedo)
            } else {
                None
            },
            attenuation is None <==> facing <= 0,
    {
        if facing > 0 {
            Some(self.albedo)
        } else {
            None
        }
    }

    /// Gives off nothing.
    pub fn emitted(&self) -> (e: Emission)
        ensures
            e == Emission::Black,
    {
        Emission::Black
    }
}

impl<V, S> Material<V, S> {
    /// The attenuation with which a path goes on from a surface of this material,
    /// or `None` where the material absorbs it.
    pub open spec fn spec_scatter(&self, facing: int) -> Option<V> {
        match self {
            Material::Dummy(_) => None,
            Material::Lambertian(m) => Some(m.albedo),
            Material::NormalVisualizer(_) => None,
            Material::Metal(m) => if facing > 0 {
                Some(m.albedo)
            } else {
                None
            },
        }
    }

    /// What a surface of this material gives off where a path ends on it.
    pub open spec fn spec_emitted(&self) -> Emission {
        match self {
            Material::NormalVisualizer(_) => Emission::Normal,
            _ => Emission::Black,
        }
    }

    /// Whether a path that meets this material needs a direction to go on in. The
    /// materials that never scatter need none, and no random number is drawn for
    /// them.
    pub open spec fn spec_may_scatter(&self) -> bool {
        self is Lambertian || self is Metal
    }
}

impl<V: Copy, S: Copy> Material<V, S> {
    /// Whether this material can scatter at all: if not, `scatter` returns `None`
    /// whatever the direction, and the caller need not draw one.
    pub fn may_scatter(&self) -> (r: bool)
        ensures
            r == self.spec_may_scatter(),
            !r ==> forall|facing: int| self.spec_scatter(facing) is None,
    {
        match self {
            Material::Lambertian(_) => true,
            Material::Metal(_) => true,
            _ => false,
        }
    }

    /// Decides whether a path goes on from a surface of this material.
    ///
    /// `facing` is the rank of the dot product of the direction in which the path
    /// would go on with the surface normal. The result is the attenuation, a
    /// factor on the colour that comes back along the path, or `None` if the path
    /// is absorbed.
    pub fn scatter(&self, facing: Rank) -> (attenuation: Option<V>)
        ensures
            attenuation == self.spec_scatter(facing as int),
    {
        match self {
            Material::Dummy(m) => m.scatter(facing),
            Material::Lambertian(m) => m.scatter(facing),
            Material::NormalVisualizer(m) => m.scatter(facing),
            Material::Metal(m) => m.scatter(facing),
        }
    }

    /// What a surface of this material gives off where a path ends on it.
    pub fn emitted(&self) -> (e: Emission)
        ensures
            e == self.spec_emitted(),
    {
        match self {
            Material::Dummy(m) => m.emitted(),
            Material::Lambertian(m) => m.emitted(),
            Material::NormalVisualizer(m) => m.emitted(),
            Material::Metal(m) => m.emitted(),
        }
    }
}

} // verus!
