pub mod fields;

use crate::rendering::material::Lambertian;
use crate::rendering::material::Material;
use crate::rendering::material::Metal;
use crate::rendering::material::NormalVisualizer;
use std::path::PathBuf;
use vstd::prelude::*;

verus! {

/// `std::path::PathBuf`, which the library carries from the configuration to
/// whoever opens the file and never looks into.
#[verifier::external_type_specification]
#[verifier::external_body]
pub struct ExPathBuf(PathBuf);

/// All that a render is configured with.
#[derive(Debug)]
pub struct Config<V, S> {
    pub camera: CameraConfig<V, S>,
    pub renderer: RendererConfig,
    pub image: ImageConfig,
    pub materials: Vec<MaterialConfig<V, S>>,
    pub objects: Vec<ObjectConfig<V, S>>,
}

#[derive(Debug)]
pub struct CameraConfig<V, S> {
    /// Width of the image over its height.
    pub aspect_ratio: S,
    /// Vertical field of view, in degrees.
    pub field_of_view: u32,
    pub position: V,
    pub look_at: V,
}

#[derive(Debug)]
pub struct RendererConfig {
    pub samples_per_pixel: u32,
    pub max_bounces: u32,
}

#[derive(Debug)]
pub struct ImageConfig {
    pub width: u32,
    pub output: PathBuf,
}

/// A material as configured: under a name, by which objects refer to it.
#[derive(Debug, Clone)]
pub enum MaterialConfig<V, S> {
    Lambertian { name: String, albedo: V },
    Metal { name: String, albedo: V, fuzz: S },
    NormalVisualization { name: String },
}

/// An object as configured, with the name of its material.
#[derive(Debug, Clone)]
pub enum ObjectConfig<V, S> {
    Sphere { position: V, radius: S, material: String },
}

impl<V, S> MaterialConfig<V, S> {
    /// The name under which the material is configured.
    pub open spec fn spec_name(&self) -> Seq<char> {
        match self {
            MaterialConfig::Lambertian { name, .. } => name@,
            MaterialConfig::Metal { name, .. } => name@,
            MaterialConfig::NormalVisualization { name } => name@,
        }
    }

    /// The material that is configured.
    pub open spec fn spec_material(&self) -> Material<V, S> {
        match self {
            MaterialConfig::Lambertian { albedo, .. } => Material::Lambertian(
                Lambertian { albedo: *albedo },
            ),
            MaterialConfig::Metal { albedo, fuzz, .. } => Material::Metal(
                Metal { albedo: *albedo, fuzz: *fuzz },
            ),
            MaterialConfig::NormalVisualization { .. } => Material::NormalVisualizer(
                NormalVisualizer,
            ),
        }
    }
}

impl<V: Copy, S: Copy> MaterialConfig<V, S> {
    /// The name under which the material is configured.
    pub fn name(&self) -> (n: &String)
        ensures
            n@ == self.spec_name(),
    {
        match self {
            MaterialConfig::Lambertian { name, .. } => name,
            MaterialConfig::Metal { name, .. } => name,
            MaterialConfig::NormalVisualization { name } => name,
        }
    }

    /// Builds the material that is configured.
    pub fn material(&self) -> (m: Material<V, S>)
        ensures
            m == self.spec_material(),
    {
        match self {
            MaterialConfig::Lambertian { albedo, .. } => Material::Lambertian(
                Lambertian::new(*albedo),
            ),
            MaterialConfig::Metal { albedo, fuzz, .. } => Material::Metal(
                Metal::new(*albedo, *fuzz),
            ),
            MaterialConfig::NormalVisualization { .. } => Material::NormalVisualizer(
                NormalVisualizer,
            ),
        }
    }
}

impl<V, S> ObjectConfig<V, S> {
    /// The name of the material that the object refers to.
    pub open spec fn spec_material_name(&self) -> Seq<char> {
        match self {
            ObjectConfig::Sphere { material, .. } => material@,
        }
    }
}

impl<V: Copy, S: Copy> ObjectConfig<V, S> {
    /// The name of the material that the object refers to.
    pub fn material_name(&self) -> (n: &String)
        ensures
            n@ == self.spec_material_name(),
    {
        match self {
            ObjectConfig::Sphere { material, .. } => material,
        }
    }
}

/// The names of `materials`, in their order.
pub open spec fn spec_names<V, S>(materials: Seq<MaterialConfig<V, S>>) -> Seq<Seq<char>> {
    Seq::new(materials.len(), |i: int| materials[i].spec_name())
}

/// Some material is configured under the name `wanted`.
pub open spec fn spec_known(names: Seq<Seq<char>>, wanted: Seq<char>) -> bool {
    exists|k: int| 0 <= k < names.len() && #[trigger] names[k] == wanted
}

/// The material at index `k` is the one that the name `wanted` refers to: it is
/// configured under that name, and no material after it is. Of several materials
/// with one name the last one counts.
pub open spec fn spec_binds(names: Seq<Seq<char>>, wanted: Seq<char>, k: int) -> bool {
    &&& 0 <= k < names.len()
    &&& names[k] == wanted
    &&& forall|j: int| k < j < names.len() ==> #[trigger] names[j] != wanted
}

/// A name refers to one material at most.
pub proof fn lemma_binds_unique(names: Seq<Seq<char>>, wanted: Seq<char>, k1: int, k2: int)
    requires
        spec_binds(names, wanted, k1),
        spec_binds(names, wanted, k2),
    ensures
        k1 == k2,
{
}

/// A name refers to a material exactly when some material is configured under it.
pub proof fn lemma_known_iff_bound(names: Seq<Seq<char>>, wanted: Seq<char>)
    ensures
        spec_known(names, wanted) <==> exists|k: int| spec_binds(names, wanted, k),
    decreases names.len(),
{
    if spec_known(names, wanted) {
        let last = names.len() - 1;
        if names[last] == wanted {
            assert(spec_binds(names, wanted, last));
        } else {
            let front = names.drop_last();
            let w = choose|k: int| 0 <= k < names.len() && #[trigger] names[k] == wanted;
            assert(front[w] == wanted);
            lemma_known_iff_bound(front, wanted);
            let k = choose|k: int| spec_binds(front, wanted, k);
            assert forall|j: int| k < j < names.len() implies #[trigger] names[j] != wanted by {
                if j < last {
                    assert(front[j] != wanted);
                }
            }
            assert(spec_binds(names, wanted, k));
        }
    }
}

/// Finds the material that the name `wanted` refers to.
///
/// Returns its index in `materials`, or `None` where no material is configured
/// under that name. Of several materials with one name the last one is found.
pub fn resolve<V: Copy, S: Copy>(materials: &Vec<MaterialConfig<V, S>>, wanted: &String) -> (found:
    Option<usize>)
    ensures
        match found {
            Some(k) => spec_binds(spec_names(materials@), wanted@, k as int),
            None => !spec_known(spec_names(materials@), wanted@),
        },
{
    let ghost names = spec_names(materials@);
    let mut found: Option<usize> = None;
    let mut i: usize = 0;
    while i < materials.len()
        invariant
            i <= materials.len(),
            names == spec_names(materials@),
            match found {
                Some(k) => k < i && names[k as int] == wanted@ && forall|j: int|
                    k < j < i ==> #[trigger] names[j] != wanted@,
                None => forall|j: int| 0 <= j < i ==> #[trigger] names[j] != wanted@,
            },
        decreases materials.len() - i,
    {
        if *materials[i].name() == *wanted {
            found = Some(i);
        }
        i += 1;
    }
    found
}

impl<V: Copy, S: Copy> Config<V, S> {
    /// Every object refers to a material that is configured.
    pub open spec fn spec_resolved(&self) -> bool {
        forall|i: int|
            0 <= i < self.objects@.len() ==> spec_known(
                spec_names(self.materials@),
                #[trigger] self.objects@[i].spec_material_name(),
            )
    }

    /// Looks for an object whose material is not configured.
    ///
    /// Returns the index of the first such object, or `None` where every object
    /// refers to a configured material.
    pub fn first_unresolved(&self) -> (bad: Option<usize>)
        ensures
            bad is None <==> self.spec_resolved(),
            bad matches Some(i) ==> {
                &&& i < self.objects@.len()
                &&& !spec_known(
                    spec_names(self.materials@),
                    self.objects@[i as int].spec_material_name(),
                )
                &&& forall|j: int|
                    0 <= j < i ==> spec_known(
                        spec_names(self.materials@),
                        #[trigger] self.objects@[j].spec_material_name(),
                    )
            },
    {
        let mut i: usize = 0;
        while i < self.objects.len()
            invariant
                i <= self.objects@.len(),
                forall|j: int|
                    0 <= j < i ==> spec_known(
                        spec_names(self.materials@),
                        #[trigger] self.objects@[j].spec_material_name(),
                    ),
            decreases self.objects@.len() - i,
        {
            if resolve(&self.materials, self.objects[i].material_name()).is_none() {
                return Some(i);
            }
            proof {
                lemma_known_iff_bound(
                    spec_names(self.materials@),
                    self.objects@[i as int].spec_material_name(),
                );
            }
            i += 1;
        }
        None
    }
}

} // verus!
