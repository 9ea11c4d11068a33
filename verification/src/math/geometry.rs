use super::interval::Interval;
use super::rank::Rank;
use vstd::prelude::*;

verus! {

/// What a query reports of the point where a ray meets a surface.
#[derive(Clone, Copy, Debug, PartialEq, Eq, Structural)]
pub struct HitInfo {
    /// The ray parameter of the point.
    pub t: Rank,
    /// The handle of the material of the surface that was met.
    pub material: usize,
}

/// The two parameters at which the line of a ray passes through the boundary of a
/// sphere: it goes in at `near` and comes out at `far`.
#[derive(Clone, Copy, Debug, PartialEq, Eq, Structural)]
pub struct Crossing {
    near: Rank,
    far: Rank,
}

impl Crossing {
    /// The parameter at which the line goes in.
    pub closed spec fn entry(&self) -> int {
        self.near as int
    }

    /// The parameter at which the line comes out.
    pub closed spec fn exit(&self) -> int {
        self.far as int
    }

    /// A line does not leave a sphere before it has entered.
    #[verifier::type_invariant]
    pub closed spec fn wf(&self) -> bool {
        self.near <= self.far
    }

    /// The first of the two parameters that lies strictly inside `range`, the near
    /// one before the far one.
    pub open spec fn first_inside(&self, range: Interval) -> Option<int> {
        if range.spec_surrounds(self.entry()) {
            Some(self.entry())
        } else if range.spec_surrounds(self.exit()) {
            Some(self.exit())
        } else {
            None
        }
    }

    /// The crossing that goes in at `near` and comes out at `far`.
    pub fn new(near: Rank, far: Rank) -> (c: Self)
        requires
            near <= far,
        ensures
            c.entry() == near,
            c.exit() == far,
            c.wf(),
    {
        Crossing { near, far }
    }

    /// The parameter at which the line goes in.
    pub fn near(&self) -> (r: Rank)
        ensures
            r == self.entry(),
            self.wf(),
    {
        proof {
            use_type_invariant(self);
        }
        self.near
    }

    /// The parameter at which the line comes out.
    pub fn far(&self) -> (r: Rank)
        ensures
            r == self.exit(),
            self.wf(),
    {
        proof {
            use_type_invariant(self);
        }
        self.far
    }

    /// The ends of a crossing are in order and fit a rank.
    pub proof fn lemma_ends_ordered(self)
        requires
            self.wf(),
        ensures
            i64::MIN <= self.entry() <= self.exit() <= i64::MAX,
    {
    }
}

/// Where a ray that is confined to the open range `range` meets a sphere, given
/// what its line does: `None` for a line that passes the sphere by, else the two
/// parameters of the crossing.
pub open spec fn spec_hit(crossing: Option<Crossing>, range: Interval) -> Option<int> {
    match crossing {
        None => None,
        Some(c) => c.first_inside(range),
    }
}

/// A hit lies strictly inside the range, at one of the two parameters of the
/// crossing: at the near one wherever that lies inside the range.
pub proof fn lemma_hit_inside(crossing: Option<Crossing>, range: Interval, t: int)
    requires
        spec_hit(crossing, range) == Some(t),
    ensures
        range.spec_surrounds(t),
        crossing matches Some(c) && (t == c.entry() || t == c.exit()) && (range.spec_surrounds(
            c.entry(),
        ) ==> t == c.entry()),
{
}

/// A ray misses a sphere exactly if its line passes the sphere by or goes
/// through it outside the range only.
pub proof fn lemma_miss(crossing: Option<Crossing>, range: Interval)
    ensures
        spec_hit(crossing, range) is None <==> (crossing matches Some(c) ==> !range.spec_surrounds(
            c.entry(),
        ) && !range.spec_surrounds(c.exit())),
{
}

/// A sphere of the scene. Centre and radius are the caller's to compute with; the
/// library keeps them and knows the sphere by the material it refers to.
#[derive(Clone, Copy, Debug, PartialEq)]
pub struct Sphere<V, S> {
    pub center: V,
    pub radius: S,
    /// The handle of the sphere's material in the world that holds the sphere.
    pub material: usize,
}

impl<V, S> Sphere<V, S> {
    /// Decides where a ray confined to the open range `ray_t` meets this sphere.
    ///
    /// `crossing` is what the ray's line does: `None` if it passes the sphere by.
    /// The near parameter is taken if it lies strictly inside `ray_t`, else the far
    /// one if that does, else there is no hit. A hit carries the sphere's material.
    pub fn check_intersection(&self, crossing: Option<Crossing>, ray_t: Interval) -> (hit: Option<
        HitInfo,
    >)
        ensures
            match hit {
                Some(h) => spec_hit(crossing, ray_t) == Some(h.t as int) && h.material
                    == self.material,
                None => spec_hit(crossing, ray_t) is None,
            },
    {
        match crossing {
            None => None,
            Some(c) => {
                let mut root = c.near();
                if !ray_t.surrounds(root) {
                    root = c.far();
                    if !ray_t.surrounds(root) {
                        return None;
                    }
                }
                Some(HitInfo { t: root, material: self.material })
            },
        }
    }
}

} // verus!
