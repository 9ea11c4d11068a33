use crate::config::resolve;
use crate::config::spec_binds;
use crate::config::spec_names;
use crate::config::Config;
use crate::config::ObjectConfig;
use crate::math::geometry::lemma_hit_inside;
use crate::math::geometry::spec_hit;
use crate::math::geometry::Crossing;
use crate::math::geometry::HitInfo;
use crate::math::geometry::Sphere;
use crate::math::interval::Interval;
use crate::rendering::material::Material;
use vstd::prelude::*;

verus! {

/// The scene: its materials, and the objects that refer to them by handle. A
/// handle is the index of a material in `materials`.
pub struct World<V, S> {
    materials: Vec<Material<V, S>>,
    objects: Vec<Sphere<V, S>>,
}

/// Object `k` is where a ray confined to the open range `ray_t` first meets the
/// scene, at parameter `t`: the ray meets object `k` at `t`, no object earlier
/// than at `t`, and no object that stands before `k` at `t` itself. So of several
/// objects that are met at the same smallest parameter, the one that stands first
/// is the nearest.
pub open spec fn spec_nearest(
    crossings: Seq<Option<Crossing>>,
    ray_t: Interval,
    k: int,
    t: int,
) -> bool {
    &&& 0 <= k < crossings.len()
    &&& spec_hit(crossings[k], ray_t) == Some(t)
    &&& forall|j: int|
        0 <= j < crossings.len() ==> match #[trigger] spec_hit(crossings[j], ray_t) {
            Some(u) => t <= u && (j < k ==> t < u),
            None => true,
        }
}

/// A ray confined to the open range `ray_t` meets no object.
pub open spec fn spec_all_miss(crossings: Seq<Option<Crossing>>, ray_t: Interval) -> bool {
    forall|j: int| 0 <= j < crossings.len() ==> #[trigger] spec_hit(crossings[j], ray_t) is None
}

/// The nearest hit is one: two answers to the same query agree in the object and
/// in the parameter.
pub proof fn lemma_nearest_unique(
    crossings: Seq<Option<Crossing>>,
    ray_t: Interval,
    k1: int,
    t1: int,
    k2: int,
    t2: int,
)
    requires
        spec_nearest(crossings, ray_t, k1, t1),
        spec_nearest(crossings, ray_t, k2, t2),
    ensures
        k1 == k2,
        t1 == t2,
{
    assert(spec_hit(crossings[k1], ray_t) == Some(t1));
    assert(spec_hit(crossings[k2], ray_t) == Some(t2));
}

/// The nearest hit lies strictly inside the range of the query.
pub proof fn lemma_nearest_inside(
    crossings: Seq<Option<Crossing>>,
    ray_t: Interval,
    k: int,
    t: int,
)
    requires
        spec_nearest(crossings, ray_t, k, t),
    ensures
        ray_t.spec_surrounds(t),
{
    lemma_hit_inside(crossings[k], ray_t, t);
}

/// A query has a nearest hit or misses every object, never both.
pub proof fn lemma_nearest_excludes_miss(
    crossings: Seq<Option<Crossing>>,
    ray_t: Interval,
    k: int,
    t: int,
)
    requires
        spec_nearest(crossings, ray_t, k, t),
    ensures
        !spec_all_miss(crossings, ray_t),
{
    assert(spec_hit(crossings[k], ray_t) == Some(t));
}

/// Narrowing the range from above by a bound that lies in it changes an object's
/// answer in one way only: a hit below the bound stays as it is, and any other
/// answer becomes a miss.
pub proof fn lemma_shrunk_query(crossing: Option<Crossing>, ray_t: Interval, shrunk: Interval)
    requires
        ray_t.wf(),
        shrunk.wf(),
        shrunk.lo() == ray_t.lo(),
        shrunk.hi() <= ray_t.hi(),
        crossing matches Some(c) ==> c.wf(),
    ensures
        match spec_hit(crossing, ray_t) {
            Some(t) => spec_hit(crossing, shrunk) == if t < shrunk.hi() {
                Some(t)
            } else {
                None
            },
            None => spec_hit(crossing, shrunk) is None,
        },
{
    match crossing {
        Some(c) => {
            c.lemma_ends_ordered();
        },
        None => {},
    }
}

impl<V, S> World<V, S> {
    /// The materials of the scene, each at the index that is its handle.
    pub closed spec fn spec_materials(&self) -> Seq<Material<V, S>> {
        self.materials@
    }

    /// The objects of the scene, in the order in which they were added.
    pub closed spec fn spec_objects(&self) -> Seq<Sphere<V, S>> {
        self.objects@
    }

    /// Every object refers to a material of the scene.
    #[verifier::type_invariant]
    pub closed spec fn wf(&self) -> bool {
        forall|i: int|
            0 <= i < self.objects@.len() ==> (#[trigger] self.objects@[i]).material
                < self.materials@.len()
    }

    /// In a scene every handle is good: each object refers to a material that
    /// the scene holds.
    pub proof fn lemma_handles_valid(self)
        requires
            self.wf(),
        ensures
            forall|i: int|
                0 <= i < self.spec_objects().len() ==> (#[trigger] self.spec_objects()[i]).material
                    < self.spec_materials().len(),
    {
    }
}

impl<V: Copy, S: Copy> World<V, S> {
    /// The empty scene.
    pub fn new() -> (world: Self)
        ensures
            world.wf(),
            world.spec_materials().len() == 0,
            world.spec_objects().len() == 0,
    {
        World { materials: Vec::new(), objects: Vec::new() }
    }

    /// Adds a material to the scene and returns its handle.
    pub fn add_material(&mut self, material: Material<V, S>) -> (handle: usize)
        ensures
            final(self).wf(),
            handle == old(self).spec_materials().len(),
            final(self).spec_materials() == old(self).spec_materials().push(material),
            final(self).spec_objects() == old(self).spec_objects(),
    {
        proof {
            use_type_invariant(&*self);
        }
        // The vectors leave the scene for the push: a push may unwind, and the
        // invariant of the scene is not to be open while it does.
        let mut objects: Vec<Sphere<V, S>> = Vec::new();
        let mut materials: Vec<Material<V, S>> = Vec::new();
        std::mem::swap(&mut self.objects, &mut objects);
        std::mem::swap(&mut self.materials, &mut materials);
        let handle = materials.len();
        materials.push(material);
        self.materials = materials;
        self.objects = objects;
        handle
    }

    /// Adds an object to the scene, behind those that are in it.
    pub fn add(&mut self, object: Sphere<V, S>)
        requires
            object.material < old(self).spec_materials().len(),
        ensures
            final(self).wf(),
            final(self).spec_objects() == old(self).spec_objects().push(object),
            final(self).spec_materials() == old(self).spec_materials(),
    {
        proof {
            use_type_invariant(&*self);
        }
        let mut objects: Vec<Sphere<V, S>> = Vec::new();
        std::mem::swap(&mut self.objects, &mut objects);
        objects.push(object);
        self.objects = objects;
    }

    /// The materials of the scene, each at the index that is its handle.
    pub fn materials(&self) -> (m: &Vec<Material<V, S>>)
        ensures
            m@ == self.spec_materials(),
            self.wf(),
    {
        proof {
            use_type_invariant(self);
        }
        &self.materials
    }

    /// The objects of the scene, in the order in which they were added.
    pub fn objects(&self) -> (o: &Vec<Sphere<V, S>>)
        ensures
            o@ == self.spec_objects(),
            self.wf(),
    {
        proof {
            use_type_invariant(self);
        }
        &self.objects
    }

    /// Builds the scene that `config` describes.
    ///
    /// The materials of the scene are those of the configuration, in their order,
    /// and so are the objects. Each object gets the handle of the material that
    /// its name refers to: of several materials with that name, the last one.
    pub fn from_config(config: &Config<V, S>) -> (world: Self)
        requires
            config.spec_resolved(),
        ensures
            world.wf(),
            world.spec_materials().len() == config.materials@.len(),
            forall|k: int|
                0 <= k < config.materials@.len() ==> #[trigger] world.spec_materials()[k]
                    == config.materials@[k].spec_material(),
            world.spec_objects().len() == config.objects@.len(),
            forall|i: int|
                0 <= i < config.objects@.len() ==> spec_built(
                    config,
                    #[trigger] config.objects@[i],
                    world.spec_objects()[i],
                ),
    {
        let mut world: World<V, S> = World::new();
        let mut k: usize = 0;
        while k < config.materials.len()
            invariant
                k <= config.materials@.len(),
                world.wf(),
                world.spec_objects().len() == 0,
                world.spec_materials().len() == k,
                forall|j: int|
                    0 <= j < k ==> #[trigger] world.spec_materials()[j]
                        == config.materials@[j].spec_material(),
            decreases config.materials@.len() - k,
        {
            world.add_material(config.materials[k].material());
            k += 1;
        }
        let mut i: usize = 0;
        while i < config.objects.len()
            invariant
                i <= config.objects@.len(),
                config.spec_resolved(),
                world.wf(),
                world.spec_materials().len() == config.materials@.len(),
                forall|j: int|
                    0 <= j < config.materials@.len() ==> #[trigger] world.spec_materials()[j]
                        == config.materials@[j].spec_material(),
                world.spec_objects().len() == i,
                forall|j: int|
                    0 <= j < i ==> spec_built(
                        config,
                        #[trigger] config.objects@[j],
                        world.spec_objects()[j],
                    ),
            decreases config.objects@.len() - i,
        {
            match &config.objects[i] {
                ObjectConfig::Sphere { position, radius, material } => {
                    let found = resolve(&config.materials, material);
                    assert(found is Some) by {
                        assert(config.objects@[i as int].spec_material_name() == material@);
                    }
                    let handle = found.unwrap();
                    world.add(Sphere { center: *position, radius: *radius, material: handle });
                },
            }
            i += 1;
        }
        world
    }

    /// Finds where a ray confined to the open range `ray_t` first meets the scene.
    ///
    /// `crossings` says what the ray's line does at each object, in the order of
    /// the objects: `None` where it passes the object by. The result is the index
    /// of the nearest object that the ray meets, with the parameter of the hit and
    /// the object's material; of several objects met at the same parameter the
    /// one that stands first; `None` where the ray meets no object.
    pub fn check_intersection(&self, crossings: &Vec<Option<Crossing>>, ray_t: Interval) -> (found:
        Option<(usize, HitInfo)>)
        requires
            crossings@.len() == self.spec_objects().len(),
        ensures
            match found {
                Some((k, hit)) => {
                    &&& spec_nearest(crossings@, ray_t, k as int, hit.t as int)
                    &&& hit.material == self.spec_objects()[k as int].material
                    &&& hit.material < self.spec_materials().len()
                },
                None => spec_all_miss(crossings@, ray_t),
            },
    {
        proof {
            use_type_invariant(self);
            use_type_invariant(&ray_t);
            ray_t.lemma_ends_ordered();
        }
        let mut closest = ray_t.max();
        let mut hit_anything: Option<(usize, HitInfo)> = None;
        let mut i: usize = 0;
        while i < self.objects.len()
            invariant
                i <= self.objects@.len(),
                crossings@.len() == self.objects@.len(),
                self.wf(),
                ray_t.wf(),
                ray_t.lo() <= closest <= ray_t.hi(),
                match hit_anything {
                    Some((k, hit)) => {
                        &&& k < i
                        &&& hit.t == closest
                        &&& hit.material == self.objects@[k as int].material
                        &&& spec_hit(crossings@[k as int], ray_t) == Some(closest as int)
                        &&& forall|j: int|
                            0 <= j < i ==> match #[trigger] spec_hit(crossings@[j], ray_t) {
                                Some(u) => closest <= u && (j < k ==> closest < u),
                                None => true,
                            }
                    },
                    None => {
                        &&& closest == ray_t.hi()
                        &&& forall|j: int|
                            0 <= j < i ==> #[trigger] spec_hit(crossings@[j], ray_t) is None
                    },
                },
            decreases self.objects@.len() - i,
        {
            let crossing = crossings[i];
            let shrunk = Interval::new(ray_t.min(), closest);
            proof {
                match crossing {
                    Some(c) => {
                        use_type_invariant(&c);
                    },
                    None => {},
                }
                lemma_shrunk_query(crossing, ray_t, shrunk);
            }
            if let Some(hit) = self.objects[i].check_intersection(crossing, shrunk) {
                closest = hit.t;
                hit_anything = Some((i, hit));
            }
            i += 1;
        }
        hit_anything
    }
}

/// `sphere` is what `object` describes, with the handle of the material that the
/// object's name refers to among the materials of `config`.
pub open spec fn spec_built<V, S>(
    config: &Config<V, S>,
    object: ObjectConfig<V, S>,
    sphere: Sphere<V, S>,
) -> bool {
    match object {
        ObjectConfig::Sphere { position, radius, material } => {
            &&& sphere.center == position
            &&& sphere.radius == radius
            &&& spec_binds(spec_names(config.materials@), material@, sphere.material as int)
        },
    }
}

} // verus!
