use super::image::spec_ppm;
use super::image::Image;
use super::material::Emission;
use super::material::Material;
use crate::color::Pixel;
use crate::math::geometry::Crossing;
use crate::math::geometry::HitInfo;
use crate::math::geometry::Sphere;
use crate::math::interval::Interval;
use crate::math::rank::Rank;
use crate::math::rank::INFINITY;
use crate::world::lemma_nearest_excludes_miss;
use crate::world::lemma_nearest_unique;
use crate::world::spec_all_miss;
use crate::world::spec_nearest;
use crate::world::World;
use vstd::prelude::*;

verus! {

/// The rank of the parameter at or below which a ray meets nothing: a
/// thousandth. A ray that leaves a surface starts on it, and is not to be caught
/// by it once more.
pub const NEAR_LIMIT: Rank = 0x3F50_624D_D2F1_A9FC;

/// What one sample does: a relation between the state and the colour before a
/// sample of the pixel in a column of a row, and the state and the colour after
/// it.
pub type Step<St, C> = spec_fn(St, u32, u32, C, St, C) -> bool;

/// By `step`, a sample of the pixel in column `i` of row `j` can take the state
/// `st0` and the colour `c0` to the state `st1` and the colour `c1`.
pub open spec fn spec_takes<St, C>(
    step: Step<St, C>,
    st0: St,
    i: u32,
    j: u32,
    c0: C,
    st1: St,
    c1: C,
) -> bool {
    step(st0, i, j, c0, st1, c1)
}

/// What a sample does that is taken by a call of `sample`.
pub open spec fn spec_step_of<St, C, F: Fn(St, u32, u32, C) -> (St, C)>(sample: F) -> Step<
    St,
    C,
> {
    |st0: St, i: u32, j: u32, c0: C, st1: St, c1: C|
        call_ensures(sample, (st0, i, j, c0), (st1, c1))
}

/// `n` samples of the pixel in column `i` of row `j`, one after the other, can
/// take the state `st0` and the colour `c0` to the state `st1` and the colour
/// `c1`.
pub open spec fn spec_sampled<St, C>(
    step: Step<St, C>,
    i: u32,
    j: u32,
    n: nat,
    st0: St,
    c0: C,
    st1: St,
    c1: C,
) -> bool
    decreases n,
{
    if n == 0 {
        st1 == st0 && c1 == c0
    } else {
        exists|st: St, c: C|
            {
                &&& spec_sampled(step, i, j, (n - 1) as nat, st0, c0, st, c)
                &&& #[trigger] spec_takes(step, st, i, j, c, st1, c1)
            }
    }
}

/// One more sample takes what `n` samples have left to what `n + 1` leave.
pub proof fn lemma_sampled_step<St, C>(
    step: Step<St, C>,
    i: u32,
    j: u32,
    n: nat,
    st0: St,
    c0: C,
    st: St,
    c: C,
    st1: St,
    c1: C,
)
    requires
        spec_sampled(step, i, j, n, st0, c0, st, c),
        spec_takes(step, st, i, j, c, st1, c1),
    ensures
        spec_sampled(step, i, j, n + 1, st0, c0, st1, c1),
{
    assert(spec_sampled(step, i, j, ((n + 1) - 1) as nat, st0, c0, st, c));
}

/// What `n` samples leave is what the last of them makes of what the samples
/// before it have left; where no sample is taken, state and colour stay as
/// they were.
pub proof fn lemma_sampled_last<St, C>(
    step: Step<St, C>,
    i: u32,
    j: u32,
    n: nat,
    st0: St,
    c0: C,
    st1: St,
    c1: C,
)
    requires
        spec_sampled(step, i, j, n, st0, c0, st1, c1),
    ensures
        n == 0 ==> st1 == st0 && c1 == c0,
        n > 0 ==> exists|st: St, c: C|
            {
                &&& spec_sampled(step, i, j, (n - 1) as nat, st0, c0, st, c)
                &&& #[trigger] spec_takes(step, st, i, j, c, st1, c1)
            },
{
}

/// Whatever samples of one kind can do, samples of a kind that can do all that
/// the first can do can do too.
pub proof fn lemma_sampled_weaken<St, C>(
    step: Step<St, C>,
    wider: Step<St, C>,
    i: u32,
    j: u32,
    n: nat,
    st0: St,
    c0: C,
    st1: St,
    c1: C,
)
    requires
        forall|st: St, i: u32, j: u32, c: C, a: St, b: C| #[trigger]
            spec_takes(step, st, i, j, c, a, b) ==> spec_takes(wider, st, i, j, c, a, b),
        spec_sampled(step, i, j, n, st0, c0, st1, c1),
    ensures
        spec_sampled(wider, i, j, n, st0, c0, st1, c1),
    decreases n,
{
    if n > 0 {
        lemma_sampled_last(step, i, j, n, st0, c0, st1, c1);
        let (st, c) = choose|st: St, c: C|
            {
                &&& spec_sampled(step, i, j, (n - 1) as nat, st0, c0, st, c)
                &&& #[trigger] spec_takes(step, st, i, j, c, st1, c1)
            };
        lemma_sampled_weaken(step, wider, i, j, (n - 1) as nat, st0, c0, st, c);
        assert(spec_takes(wider, st, i, j, c, st1, c1));
        lemma_sampled_step(wider, i, j, (n - 1) as nat, st0, c0, st, c, st1, c1);
    }
}

/// `pixel` can be made for column `i` of row `j` from the state `st0`, leaving
/// the state `st1`: `samples` samples are taken, beginning with the colour
/// `start`, and `finish` makes the pixel of the colour that comes out.
pub open spec fn spec_pixel_made<St, C, G: Fn(C) -> Pixel>(
    step: Step<St, C>,
    finish: G,
    i: u32,
    j: u32,
    samples: nat,
    start: C,
    st0: St,
    st1: St,
    pixel: Pixel,
) -> bool {
    exists|c: C|
        {
            &&& spec_sampled(step, i, j, samples, st0, start, st1, c)
            &&& #[trigger] call_ensures(finish, (c,), pixel)
        }
}

/// `pixels` can be the first pixels of a render `width` pixels wide that goes
/// through `states`: the pixel at index `k`, which is the one in column
/// `k % width` of row `k / width`, is made from the state at index `k` and leaves
/// the state at index `k + 1`. So the pixels are made in their order, row by row
/// from the top and in a row from the left, and what is drawn for one pixel
/// follows what was drawn for the pixel before.
pub open spec fn spec_rendered<St, C, G: Fn(C) -> Pixel>(
    step: Step<St, C>,
    finish: G,
    width: nat,
    samples: nat,
    start: C,
    states: Seq<St>,
    pixels: Seq<Pixel>,
) -> bool {
    &&& states.len() == pixels.len() + 1
    &&& forall|k: int|
        0 <= k < pixels.len() ==> spec_pixel_made(
            step,
            finish,
            (k % (width as int)) as u32,
            (k / (width as int)) as u32,
            samples,
            start,
            states[k],
            states[k + 1],
            #[trigger] pixels[k],
        )
}

/// Whatever a render with samples of one kind can make, a render with samples
/// of a kind that can do all that the first can do can make too.
pub proof fn lemma_rendered_weaken<St, C, G: Fn(C) -> Pixel>(
    step: Step<St, C>,
    wider: Step<St, C>,
    finish: G,
    width: nat,
    samples: nat,
    start: C,
    states: Seq<St>,
    pixels: Seq<Pixel>,
)
    requires
        forall|st: St, i: u32, j: u32, c: C, a: St, b: C| #[trigger]
            spec_takes(step, st, i, j, c, a, b) ==> spec_takes(wider, st, i, j, c, a, b),
        spec_rendered(step, finish, width, samples, start, states, pixels),
    ensures
        spec_rendered(wider, finish, width, samples, start, states, pixels),
{
    assert forall|k: int| 0 <= k < pixels.len() implies spec_pixel_made(
        wider,
        finish,
        (k % (width as int)) as u32,
        (k / (width as int)) as u32,
        samples,
        start,
        states[k],
        states[k + 1],
        #[trigger] pixels[k],
    ) by {
        let i = (k % (width as int)) as u32;
        let j = (k / (width as int)) as u32;
        assert(spec_pixel_made(step, finish, i, j, samples, start, states[k], states[k + 1], pixels[k]));
        let c = choose|c: C|
            {
                &&& spec_sampled(step, i, j, samples, states[k], start, states[k + 1], c)
                &&& #[trigger] call_ensures(finish, (c,), pixels[k])
            };
        lemma_sampled_weaken(step, wider, i, j, samples, states[k], start, states[k + 1], c);
    }
}

/// The number of rows of an image of `width` by `height` pixels that hold a
/// pixel: an image without width has no pixel, and so no such row.
pub open spec fn spec_rows(width: nat, height: nat) -> nat {
    if width == 0 {
        0
    } else {
        height
    }
}

/// The rows of a render were reported one after the other, from the top, and
/// the reports went through `reports`: the report of row `j` took the report at
/// index `j` to the one at index `j + 1`.
pub open spec fn spec_rows_done<Pr, H: Fn(Pr, u32) -> Pr>(row_done: H, reports: Seq<Pr>) -> bool {
    forall|j: int|
        0 <= j < reports.len() - 1 ==> call_ensures(
            row_done,
            (#[trigger] reports[j], j as u32),
            reports[j + 1],
        )
}

/// `step` gives one answer to one question: from one state and colour, a sample
/// of one pixel leaves one state and colour.
pub open spec fn spec_step_functional<St, C>(step: Step<St, C>) -> bool {
    forall|st: St, i: u32, j: u32, c: C, a: (St, C), b: (St, C)|
        #[trigger] spec_takes(step, st, i, j, c, a.0, a.1) && #[trigger] spec_takes(
            step,
            st,
            i,
            j,
            c,
            b.0,
            b.1,
        ) ==> a == b
}

/// `finish` gives one answer to one question: it makes one pixel of one colour.
pub open spec fn spec_finish_functional<C, G: Fn(C) -> Pixel>(finish: G) -> bool {
    forall|c: C, a: Pixel, b: Pixel|
        #[trigger] call_ensures(finish, (c,), a) && #[trigger] call_ensures(finish, (c,), b) ==> a
            == b
}

/// Samples that give one answer to one question leave one state and one colour.
pub proof fn lemma_sampled_deterministic<St, C>(
    step: Step<St, C>,
    i: u32,
    j: u32,
    n: nat,
    st0: St,
    c0: C,
    a: (St, C),
    b: (St, C),
)
    requires
        spec_step_functional(step),
        spec_sampled(step, i, j, n, st0, c0, a.0, a.1),
        spec_sampled(step, i, j, n, st0, c0, b.0, b.1),
    ensures
        a == b,
    decreases n,
{
    if n > 0 {
        lemma_sampled_last(step, i, j, n, st0, c0, a.0, a.1);
        lemma_sampled_last(step, i, j, n, st0, c0, b.0, b.1);
        let (sa, ca) = choose|st: St, c: C|
            {
                &&& spec_sampled(step, i, j, (n - 1) as nat, st0, c0, st, c)
                &&& #[trigger] spec_takes(step, st, i, j, c, a.0, a.1)
            };
        let (sb, cb) = choose|st: St, c: C|
            {
                &&& spec_sampled(step, i, j, (n - 1) as nat, st0, c0, st, c)
                &&& #[trigger] spec_takes(step, st, i, j, c, b.0, b.1)
            };
        lemma_sampled_deterministic(step, i, j, (n - 1) as nat, st0, c0, (sa, ca), (sb, cb));
        assert(spec_takes(step, sa, i, j, ca, a.0, a.1));
        assert(spec_takes(step, sa, i, j, ca, b.0, b.1));
    }
}

/// Two renders of the same size that begin in the same state agree up to the
/// pixel before index `k`, and in the state before that pixel.
proof fn lemma_rendered_prefix<St, C, G: Fn(C) -> Pixel>(
    step: Step<St, C>,
    finish: G,
    width: nat,
    samples: nat,
    start: C,
    states1: Seq<St>,
    pixels1: Seq<Pixel>,
    states2: Seq<St>,
    pixels2: Seq<Pixel>,
    k: nat,
)
    requires
        spec_step_functional(step),
        spec_finish_functional(finish),
        spec_rendered(step, finish, width, samples, start, states1, pixels1),
        spec_rendered(step, finish, width, samples, start, states2, pixels2),
        states1.first() == states2.first(),
        pixels1.len() == pixels2.len(),
        k <= pixels1.len(),
    ensures
        states1[k as int] == states2[k as int],
        forall|m: int| 0 <= m < k ==> pixels1[m] == pixels2[m],
    decreases k,
{
    if k > 0 {
        let m = (k - 1) as int;
        lemma_rendered_prefix(
            step,
            finish,
            width,
            samples,
            start,
            states1,
            pixels1,
            states2,
            pixels2,
            (k - 1) as nat,
        );
        let i = (m % (width as int)) as u32;
        let j = (m / (width as int)) as u32;
        let st = states1[m];
        assert(spec_pixel_made(step, finish, i, j, samples, start, st, states1[m + 1], pixels1[m]));
        assert(spec_pixel_made(step, finish, i, j, samples, start, st, states2[m + 1], pixels2[m]));
        let c1 = choose|c: C|
            {
                &&& spec_sampled(step, i, j, samples, st, start, states1[m + 1], c)
                &&& #[trigger] call_ensures(finish, (c,), pixels1[m])
            };
        let c2 = choose|c: C|
            {
                &&& spec_sampled(step, i, j, samples, st, start, states2[m + 1], c)
                &&& #[trigger] call_ensures(finish, (c,), pixels2[m])
            };
        lemma_sampled_deterministic(
            step,
            i,
            j,
            samples,
            st,
            start,
            (states1[m + 1], c1),
            (states2[m + 1], c2),
        );
    }
}

/// A render is determined by what it begins with: where a sample and `finish`
/// give one answer to one question, two renders of the same size that begin in
/// the same state make the same pixels and go through the same states.
pub proof fn lemma_rendered_deterministic<St, C, G: Fn(C) -> Pixel>(
    step: Step<St, C>,
    finish: G,
    width: nat,
    samples: nat,
    start: C,
    states1: Seq<St>,
    pixels1: Seq<Pixel>,
    states2: Seq<St>,
    pixels2: Seq<Pixel>,
)
    requires
        spec_step_functional(step),
        spec_finish_functional(finish),
        spec_rendered(step, finish, width, samples, start, states1, pixels1),
        spec_rendered(step, finish, width, samples, start, states2, pixels2),
        states1.first() == states2.first(),
        pixels1.len() == pixels2.len(),
    ensures
        pixels1 == pixels2,
        states1 == states2,
{
    let n = pixels1.len();
    lemma_rendered_prefix(step, finish, width, samples, start, states1, pixels1, states2, pixels2, n);
    assert(pixels1 =~= pixels2);
    assert forall|k: int| 0 <= k < states1.len() implies states1[k] == states2[k] by {
        lemma_rendered_prefix(
            step,
            finish,
            width,
            samples,
            start,
            states1,
            pixels1,
            states2,
            pixels2,
            k as nat,
        );
    }
    assert(states1 =~= states2);
}

/// The arithmetic of shading, which the caller hands in: what is computed with
/// rays of the type `R` and colours of the type `C`, and what is drawn from a
/// state of the type `St`.
pub struct Shading<Q, P, E, B, M, C> {
    /// What the line of a ray does at a sphere: `None` where it passes the sphere
    /// by, else the two parameters at which it goes through it.
    pub cross: Q,
    /// The ray along which a path would go on from the point where a ray has met
    /// a sphere, with the rank of the dot product of its direction and the normal
    /// there, and the state after what was drawn for it.
    pub propose: P,
    /// The colour that a surface gives off at the point where a ray has met it.
    pub emitted: E,
    /// The colour of the background behind a ray.
    pub background: B,
    /// The colour that is left of a colour after an attenuation.
    pub attenuate: M,
    /// The colour of no light.
    pub black: C,
}

impl<Q, P, E, B, M, C> Shading<Q, P, E, B, M, C> {
    /// Every part of the arithmetic can be called with whatever there is.
    pub open spec fn spec_ready<V, S, St, R>(&self) -> bool where
        Q: Fn(&R, &Sphere<V, S>) -> Option<Crossing>,
        P: Fn(St, &R, &Sphere<V, S>, HitInfo, &Material<V, S>) -> (St, R, Rank),
        E: Fn(&R, &Sphere<V, S>, HitInfo, Emission) -> C,
        B: Fn(&R) -> C,
        M: Fn(V, C) -> C,
     {
        &&& forall|ray: &R, object: &Sphere<V, S>| call_requires(self.cross, (ray, object))
        &&& forall|st: St, ray: &R, object: &Sphere<V, S>, hit: HitInfo, material: &Material<V, S>|
            call_requires(self.propose, (st, ray, object, hit, material))
        &&& forall|ray: &R, object: &Sphere<V, S>, hit: HitInfo, emission: Emission|
            call_requires(self.emitted, (ray, object, hit, emission))
        &&& forall|ray: &R| call_requires(self.background, (ray,))
        &&& forall|attenuation: V, color: C| call_requires(self.attenuate, (attenuation, color))
    }

    /// Every part of the arithmetic gives one answer to one question.
    pub open spec fn spec_functional<V, S, St, R>(&self) -> bool where
        Q: Fn(&R, &Sphere<V, S>) -> Option<Crossing>,
        P: Fn(St, &R, &Sphere<V, S>, HitInfo, &Material<V, S>) -> (St, R, Rank),
        E: Fn(&R, &Sphere<V, S>, HitInfo, Emission) -> C,
        B: Fn(&R) -> C,
        M: Fn(V, C) -> C,
     {
        &&& forall|ray: &R, object: &Sphere<V, S>, a: Option<Crossing>, b: Option<Crossing>|
            #[trigger] call_ensures(self.cross, (ray, object), a) && #[trigger] call_ensures(
                self.cross,
                (ray, object),
                b,
            ) ==> a == b
        &&& forall|
            st: St,
            ray: &R,
            object: &Sphere<V, S>,
            hit: HitInfo,
            material: &Material<V, S>,
            a: (St, R, Rank),
            b: (St, R, Rank),
        |
            #[trigger] call_ensures(self.propose, (st, ray, object, hit, material), a)
                && #[trigger] call_ensures(self.propose, (st, ray, object, hit, material), b) ==> a
                == b
        &&& forall|ray: &R, object: &Sphere<V, S>, hit: HitInfo, emission: Emission, a: C, b: C|
            #[trigger] call_ensures(self.emitted, (ray, object, hit, emission), a)
                && #[trigger] call_ensures(self.emitted, (ray, object, hit, emission), b) ==> a
                == b
        &&& forall|ray: &R, a: C, b: C|
            #[trigger] call_ensures(self.background, (ray,), a) && #[trigger] call_ensures(
                self.background,
                (ray,),
                b,
            ) ==> a == b
        &&& forall|attenuation: V, color: C, a: C, b: C|
            #[trigger] call_ensures(self.attenuate, (attenuation, color), a)
                && #[trigger] call_ensures(self.attenuate, (attenuation, color), b) ==> a == b
    }
}

/// `crossings` is what `cross` can say of the line of `ray` at each of
/// `objects`, in their order.
pub open spec fn spec_crossed<V, S, R, Q: Fn(&R, &Sphere<V, S>) -> Option<Crossing>>(
    cross: Q,
    ray: R,
    objects: Seq<Sphere<V, S>>,
    crossings: Seq<Option<Crossing>>,
) -> bool {
    &&& crossings.len() == objects.len()
    &&& forall|k: int|
        0 <= k < objects.len() ==> call_ensures(cross, (&ray, &objects[k]), #[trigger] crossings[k])
}

/// `hit` is where a path first meets the scene, at object `k`, given what its
/// line does at each object.
pub open spec fn spec_met<V, S>(
    world: World<V, S>,
    crossings: Seq<Option<Crossing>>,
    k: int,
    hit: HitInfo,
) -> bool {
    &&& spec_nearest(crossings, spec_ray_range(), k, hit.t as int)
    &&& 0 <= k < world.spec_objects().len()
    &&& hit.material == world.spec_objects()[k].material
    &&& hit.material < world.spec_materials().len()
}

/// The range of parameters in which a path looks for the next surface: the open
/// range from `NEAR_LIMIT` to infinity.
pub open spec fn spec_ray_range() -> Interval {
    Interval::spec_new(NEAR_LIMIT, INFINITY)
}

/// A path along `ray` that may meet a surface, with the state `st0` to draw
/// from, can bring back `color` and leave the state `st1`, where `onward` says
/// what a path that goes on from that surface can bring back.
///
/// The path meets the nearest object in the range, or none. Where it meets none,
/// it brings back the background. Where the material of the object never
/// scatters, it brings back what the surface gives off, and nothing is drawn.
/// Else a ray to go on along is proposed, which draws from the state; if the
/// material scatters in that direction, the path brings back what the path
/// along that ray brings back, attenuated; if not, what the surface gives off.
pub open spec fn spec_bounced<V, S, St, R, C, Q, P, E, B, M>(
    world: World<V, S>,
    shading: Shading<Q, P, E, B, M, C>,
    onward: spec_fn(St, R, St, C) -> bool,
    st0: St,
    ray: R,
    st1: St,
    color: C,
) -> bool where
    Q: Fn(&R, &Sphere<V, S>) -> Option<Crossing>,
    P: Fn(St, &R, &Sphere<V, S>, HitInfo, &Material<V, S>) -> (St, R, Rank),
    E: Fn(&R, &Sphere<V, S>, HitInfo, Emission) -> C,
    B: Fn(&R) -> C,
    M: Fn(V, C) -> C,
 {
    exists|crossings: Seq<Option<Crossing>>|
        {
            &&& #[trigger] spec_crossed(shading.cross, ray, world.spec_objects(), crossings)
            &&& {
                ||| {
                    &&& spec_all_miss(crossings, spec_ray_range())
                    &&& st1 == st0
                    &&& call_ensures(shading.background, (&ray,), color)
                }
                ||| exists|k: int, hit: HitInfo|
                    {
                        &&& #[trigger] spec_met(world, crossings, k, hit)
                        &&& spec_shaded(
                            shading,
                            onward,
                            world.spec_objects()[k],
                            world.spec_materials()[hit.material as int],
                            hit,
                            st0,
                            ray,
                            st1,
                            color,
                        )
                    }
            }
        }
}

/// A path along `ray` that has met `object` at `hit`, with the state `st0` to
/// draw from, can bring back `color` and leave the state `st1`, where `onward`
/// says what a path that goes on from there can bring back.
pub open spec fn spec_shaded<V, S, St, R, C, Q, P, E, B, M>(
    shading: Shading<Q, P, E, B, M, C>,
    onward: spec_fn(St, R, St, C) -> bool,
    object: Sphere<V, S>,
    material: Material<V, S>,
    hit: HitInfo,
    st0: St,
    ray: R,
    st1: St,
    color: C,
) -> bool where
    Q: Fn(&R, &Sphere<V, S>) -> Option<Crossing>,
    P: Fn(St, &R, &Sphere<V, S>, HitInfo, &Material<V, S>) -> (St, R, Rank),
    E: Fn(&R, &Sphere<V, S>, HitInfo, Emission) -> C,
    B: Fn(&R) -> C,
    M: Fn(V, C) -> C,
 {
    if !material.spec_may_scatter() {
        &&& st1 == st0
        &&& call_ensures(shading.emitted, (&ray, &object, hit, material.spec_emitted()), color)
    } else {
        exists|st: St, scattered: R, facing: Rank|
            {
                &&& #[trigger] call_ensures(
                    shading.propose,
                    (st0, &ray, &object, hit, &material),
                    (st, scattered, facing),
                )
                &&& match material.spec_scatter(facing as int) {
                    None => {
                        &&& st1 == st
                        &&& call_ensures(
                            shading.emitted,
                            (&ray, &object, hit, material.spec_emitted()),
                            color,
                        )
                    },
                    Some(attenuation) => exists|c: C|
                        {
                            &&& onward(st, scattered, st1, c)
                            &&& #[trigger] call_ensures(
                                shading.attenuate,
                                (attenuation, c),
                                color,
                            )
                        },
                }
            }
    }
}

/// A path along `ray` with `bounces` bounces left, and the state `st0` to draw
/// from, can bring back `color` and leave the state `st1`.
///
/// A path with no bounce left brings back black, and looks for no surface. Else
/// it may meet a surface, and the path that goes on from there has one bounce
/// fewer.
pub open spec fn spec_traced<V, S, St, R, C, Q, P, E, B, M>(
    world: World<V, S>,
    shading: Shading<Q, P, E, B, M, C>,
    bounces: nat,
    st0: St,
    ray: R,
    st1: St,
    color: C,
) -> bool where
    Q: Fn(&R, &Sphere<V, S>) -> Option<Crossing>,
    P: Fn(St, &R, &Sphere<V, S>, HitInfo, &Material<V, S>) -> (St, R, Rank),
    E: Fn(&R, &Sphere<V, S>, HitInfo, Emission) -> C,
    B: Fn(&R) -> C,
    M: Fn(V, C) -> C,

    decreases bounces,
{
    if bounces == 0 {
        st1 == st0 && color == shading.black
    } else {
        spec_bounced(
            world,
            shading,
            |st: St, scattered: R, st1: St, c: C|
                spec_traced(world, shading, (bounces - 1) as nat, st, scattered, st1, c),
            st0,
            ray,
            st1,
            color,
        )
    }
}

/// What it is for a path to be traced: with no bounce left it is cut off, and
/// else it may meet a surface and go on from there with one bounce fewer.
pub proof fn lemma_traced<V, S, St, R, C, Q, P, E, B, M>(
    world: World<V, S>,
    shading: Shading<Q, P, E, B, M, C>,
    bounces: nat,
    st0: St,
    ray: R,
    st1: St,
    color: C,
) where
    Q: Fn(&R, &Sphere<V, S>) -> Option<Crossing>,
    P: Fn(St, &R, &Sphere<V, S>, HitInfo, &Material<V, S>) -> (St, R, Rank),
    E: Fn(&R, &Sphere<V, S>, HitInfo, Emission) -> C,
    B: Fn(&R) -> C,
    M: Fn(V, C) -> C,

    ensures
        bounces == 0 ==> (spec_traced(world, shading, bounces, st0, ray, st1, color) <==> st1 == st0
            && color == shading.black),
        bounces > 0 ==> (spec_traced(world, shading, bounces, st0, ray, st1, color)
            <==> spec_bounced(
            world,
            shading,
            |st: St, scattered: R, st1: St, c: C|
                spec_traced(world, shading, (bounces - 1) as nat, st, scattered, st1, c),
            st0,
            ray,
            st1,
            color,
        )),
{
}

/// A path is determined by what it begins with: where every part of the
/// arithmetic gives one answer to one question, a ray, a number of bounces and
/// a state to draw from have one colour that the path brings back, and one state
/// that it leaves.
pub proof fn lemma_traced_deterministic<V, S, St, R, C, Q, P, E, B, M>(
    world: World<V, S>,
    shading: Shading<Q, P, E, B, M, C>,
    bounces: nat,
    st0: St,
    ray: R,
    a: (St, C),
    b: (St, C),
) where
    Q: Fn(&R, &Sphere<V, S>) -> Option<Crossing>,
    P: Fn(St, &R, &Sphere<V, S>, HitInfo, &Material<V, S>) -> (St, R, Rank),
    E: Fn(&R, &Sphere<V, S>, HitInfo, Emission) -> C,
    B: Fn(&R) -> C,
    M: Fn(V, C) -> C,

    requires
        shading.spec_functional::<V, S, St, R>(),
        spec_traced(world, shading, bounces, st0, ray, a.0, a.1),
        spec_traced(world, shading, bounces, st0, ray, b.0, b.1),
    ensures
        a == b,
    decreases bounces, 1nat,
{
    if bounces > 0 {
        let range = spec_ray_range();
        let objects = world.spec_objects();
        let onward = |st: St, scattered: R, st1: St, c: C|
            spec_traced(world, shading, (bounces - 1) as nat, st, scattered, st1, c);
        assert(spec_bounced(world, shading, onward, st0, ray, a.0, a.1));
        assert(spec_bounced(world, shading, onward, st0, ray, b.0, b.1));
        let ca = choose|crossings: Seq<Option<Crossing>>|
            {
                &&& #[trigger] spec_crossed(shading.cross, ray, objects, crossings)
                &&& {
                    ||| {
                        &&& spec_all_miss(crossings, range)
                        &&& a.0 == st0
                        &&& call_ensures(shading.background, (&ray,), a.1)
                    }
                    ||| exists|k: int, hit: HitInfo|
                        {
                            &&& #[trigger] spec_met(world, crossings, k, hit)
                            &&& spec_shaded(
                                shading,
                                onward,
                                objects[k],
                                world.spec_materials()[hit.material as int],
                                hit,
                                st0,
                                ray,
                                a.0,
                                a.1,
                            )
                        }
                }
            };
        let cb = choose|crossings: Seq<Option<Crossing>>|
            {
                &&& #[trigger] spec_crossed(shading.cross, ray, objects, crossings)
                &&& {
                    ||| {
                        &&& spec_all_miss(crossings, range)
                        &&& b.0 == st0
                        &&& call_ensures(shading.background, (&ray,), b.1)
                    }
                    ||| exists|k: int, hit: HitInfo|
                        {
                            &&& #[trigger] spec_met(world, crossings, k, hit)
                            &&& spec_shaded(
                                shading,
                                onward,
                                objects[k],
                                world.spec_materials()[hit.material as int],
                                hit,
                                st0,
                                ray,
                                b.0,
                                b.1,
                            )
                        }
                }
            };
        assert(ca =~= cb) by {
            assert forall|k: int| 0 <= k < objects.len() implies ca[k] == cb[k] by {
                assert(call_ensures(shading.cross, (&ray, &objects[k]), ca[k]));
                assert(call_ensures(shading.cross, (&ray, &objects[k]), cb[k]));
            }
        }
        if spec_all_miss(ca, range) {
            assert forall|k: int, hit: HitInfo| !spec_met(world, ca, k, hit) by {
                if spec_met(world, ca, k, hit) {
                    lemma_nearest_excludes_miss(ca, range, k, hit.t as int);
                }
            }
            assert(call_ensures(shading.background, (&ray,), a.1));
            assert(call_ensures(shading.background, (&ray,), b.1));
        } else {
            let (ka, ha) = choose|k: int, hit: HitInfo|
                {
                    &&& #[trigger] spec_met(world, ca, k, hit)
                    &&& spec_shaded(
                        shading,
                        onward,
                        objects[k],
                        world.spec_materials()[hit.material as int],
                        hit,
                        st0,
                        ray,
                        a.0,
                        a.1,
                    )
                };
            let (kb, hb) = choose|k: int, hit: HitInfo|
                {
                    &&& #[trigger] spec_met(world, ca, k, hit)
                    &&& spec_shaded(
                        shading,
                        onward,
                        objects[k],
                        world.spec_materials()[hit.material as int],
                        hit,
                        st0,
                        ray,
                        b.0,
                        b.1,
                    )
                };
            lemma_nearest_unique(ca, range, ka, ha.t as int, kb, hb.t as int);
            assert(ha == hb);
            let object = objects[ka];
            let material = world.spec_materials()[ha.material as int];
            lemma_shaded_deterministic(
                world,
                shading,
                bounces,
                object,
                material,
                ha,
                st0,
                ray,
                a,
                b,
            );
        }
    }
}

/// What becomes of a path at a surface is determined, if what becomes of the
/// path that goes on from there is.
proof fn lemma_shaded_deterministic<V, S, St, R, C, Q, P, E, B, M>(
    world: World<V, S>,
    shading: Shading<Q, P, E, B, M, C>,
    bounces: nat,
    object: Sphere<V, S>,
    material: Material<V, S>,
    hit: HitInfo,
    st0: St,
    ray: R,
    a: (St, C),
    b: (St, C),
) where
    Q: Fn(&R, &Sphere<V, S>) -> Option<Crossing>,
    P: Fn(St, &R, &Sphere<V, S>, HitInfo, &Material<V, S>) -> (St, R, Rank),
    E: Fn(&R, &Sphere<V, S>, HitInfo, Emission) -> C,
    B: Fn(&R) -> C,
    M: Fn(V, C) -> C,

    requires
        bounces > 0,
        shading.spec_functional::<V, S, St, R>(),
        spec_shaded(
            shading,
            |st: St, scattered: R, st1: St, c: C|
                spec_traced(world, shading, (bounces - 1) as nat, st, scattered, st1, c),
            object,
            material,
            hit,
            st0,
            ray,
            a.0,
            a.1,
        ),
        spec_shaded(
            shading,
            |st: St, scattered: R, st1: St, c: C|
                spec_traced(world, shading, (bounces - 1) as nat, st, scattered, st1, c),
            object,
            material,
            hit,
            st0,
            ray,
            b.0,
            b.1,
        ),
    ensures
        a == b,
    decreases bounces, 0nat,
{
    let emission = material.spec_emitted();
    if !material.spec_may_scatter() {
        assert(call_ensures(shading.emitted, (&ray, &object, hit, emission), a.1));
        assert(call_ensures(shading.emitted, (&ray, &object, hit, emission), b.1));
    } else {
        let onward = |st: St, scattered: R, st1: St, c: C|
            spec_traced(world, shading, (bounces - 1) as nat, st, scattered, st1, c);
        let (sa, ra, fa) = choose|st: St, scattered: R, facing: Rank|
            {
                &&& #[trigger] call_ensures(
                    shading.propose,
                    (st0, &ray, &object, hit, &material),
                    (st, scattered, facing),
                )
                &&& match material.spec_scatter(facing as int) {
                    None => {
                        &&& a.0 == st
                        &&& call_ensures(shading.emitted, (&ray, &object, hit, emission), a.1)
                    },
                    Some(attenuation) => exists|c: C|
                        {
                            &&& onward(st, scattered, a.0, c)
                            &&& #[trigger] call_ensures(
                                shading.attenuate,
                                (attenuation, c),
                                a.1,
                            )
                        },
                }
            };
        let (sb, rb, fb) = choose|st: St, scattered: R, facing: Rank|
            {
                &&& #[trigger] call_ensures(
                    shading.propose,
                    (st0, &ray, &object, hit, &material),
                    (st, scattered, facing),
                )
                &&& match material.spec_scatter(facing as int) {
                    None => {
                        &&& b.0 == st
                        &&& call_ensures(shading.emitted, (&ray, &object, hit, emission), b.1)
                    },
                    Some(attenuation) => exists|c: C|
                        {
                            &&& onward(st, scattered, b.0, c)
                            &&& #[trigger] call_ensures(
                                shading.attenuate,
                                (attenuation, c),
                                b.1,
                            )
                        },
                }
            };
        assert((sa, ra, fa) == (sb, rb, fb));
        match material.spec_scatter(fa as int) {
            None => {
                assert(call_ensures(shading.emitted, (&ray, &object, hit, emission), a.1));
                assert(call_ensures(shading.emitted, (&ray, &object, hit, emission), b.1));
            },
            Some(attenuation) => {
                let c1 = choose|c: C|
                    {
                        &&& onward(sa, ra, a.0, c)
                        &&& #[trigger] call_ensures(shading.attenuate, (attenuation, c), a.1)
                    };
                let c2 = choose|c: C|
                    {
                        &&& onward(sa, ra, b.0, c)
                        &&& #[trigger] call_ensures(shading.attenuate, (attenuation, c), b.1)
                    };
                lemma_traced_deterministic(
                    world,
                    shading,
                    (bounces - 1) as nat,
                    sa,
                    ra,
                    (a.0, c1),
                    (b.0, c2),
                );
                assert(call_ensures(shading.attenuate, (attenuation, c1), a.1));
                assert(call_ensures(shading.attenuate, (attenuation, c1), b.1));
            },
        }
    }
}

/// In a scene without objects a path that is not cut off brings back the
/// background behind its ray, and draws nothing.
pub proof fn lemma_empty_world_is_background<V, S, St, R, C, Q, P, E, B, M>(
    world: World<V, S>,
    shading: Shading<Q, P, E, B, M, C>,
    bounces: nat,
    st0: St,
    ray: R,
    st1: St,
    color: C,
) where
    Q: Fn(&R, &Sphere<V, S>) -> Option<Crossing>,
    P: Fn(St, &R, &Sphere<V, S>, HitInfo, &Material<V, S>) -> (St, R, Rank),
    E: Fn(&R, &Sphere<V, S>, HitInfo, Emission) -> C,
    B: Fn(&R) -> C,
    M: Fn(V, C) -> C,

    requires
        world.spec_objects().len() == 0,
        bounces > 0,
        spec_traced(world, shading, bounces, st0, ray, st1, color),
    ensures
        st1 == st0,
        call_ensures(shading.background, (&ray,), color),
{
}

/// The arithmetic of a sample, which the caller hands in: where in its pixel
/// a sample is taken, the ray through that point, and how the colours of the
/// samples of a pixel are added up and made into the pixel.
pub struct Exposure<J, K, A, G, C> {
    /// The offset of a sample in its pixel, drawn from the state, with the state
    /// after the draw.
    pub jitter: J,
    /// The ray from the camera through the point at the given offset in the
    /// pixel in the given column and row.
    pub get_ray: K,
    /// The colour of the samples so far with the colour of one more.
    pub accumulate: A,
    /// The pixel of the colours of all samples: their mean, as it is written.
    pub finish: G,
    /// The colour of no sample.
    pub start: C,
}

impl<J, K, A, G, C> Exposure<J, K, A, G, C> {
    /// Every part of the arithmetic can be called with whatever there is.
    pub open spec fn spec_ready<St, O, R>(&self) -> bool where
        J: Fn(St) -> (St, O),
        K: Fn(u32, u32, O) -> R,
        A: Fn(C, C) -> C,
        G: Fn(C) -> Pixel,
     {
        &&& forall|st: St| call_requires(self.jitter, (st,))
        &&& forall|i: u32, j: u32, offset: O| call_requires(self.get_ray, (i, j, offset))
        &&& forall|sum: C, color: C| call_requires(self.accumulate, (sum, color))
        &&& forall|sum: C| call_requires(self.finish, (sum,))
    }

    /// Every part of the arithmetic gives one answer to one question.
    pub open spec fn spec_functional<St, O, R>(&self) -> bool where
        J: Fn(St) -> (St, O),
        K: Fn(u32, u32, O) -> R,
        A: Fn(C, C) -> C,
        G: Fn(C) -> Pixel,
     {
        &&& forall|st: St, a: (St, O), b: (St, O)|
            #[trigger] call_ensures(self.jitter, (st,), a) && #[trigger] call_ensures(
                self.jitter,
                (st,),
                b,
            ) ==> a == b
        &&& forall|i: u32, j: u32, offset: O, a: R, b: R|
            #[trigger] call_ensures(self.get_ray, (i, j, offset), a) && #[trigger] call_ensures(
                self.get_ray,
                (i, j, offset),
                b,
            ) ==> a == b
        &&& forall|sum: C, color: C, a: C, b: C|
            #[trigger] call_ensures(self.accumulate, (sum, color), a) && #[trigger] call_ensures(
                self.accumulate,
                (sum, color),
                b,
            ) ==> a == b
        &&& spec_finish_functional(self.finish)
    }
}

/// One sample of the pixel in column `i` of row `j` can take the state `st0`
/// and the colour `sum` to the state `st1` and the colour `out`: the offset of
/// the sample is drawn first; then the path along the ray through that point is
/// followed, with `bounces` bounces to begin with and the state that the draw of
/// the offset has left; and the colour that comes back is added to `sum`.
pub open spec fn spec_sample_taken<V, S, St, O, R, C, J, K, A, G, Q, P, E, B, M>(
    world: World<V, S>,
    shading: Shading<Q, P, E, B, M, C>,
    exposure: Exposure<J, K, A, G, C>,
    bounces: nat,
    st0: St,
    i: u32,
    j: u32,
    sum: C,
    st1: St,
    out: C,
) -> bool where
    J: Fn(St) -> (St, O),
    K: Fn(u32, u32, O) -> R,
    A: Fn(C, C) -> C,
    G: Fn(C) -> Pixel,
    Q: Fn(&R, &Sphere<V, S>) -> Option<Crossing>,
    P: Fn(St, &R, &Sphere<V, S>, HitInfo, &Material<V, S>) -> (St, R, Rank),
    E: Fn(&R, &Sphere<V, S>, HitInfo, Emission) -> C,
    B: Fn(&R) -> C,
    M: Fn(V, C) -> C,
 {
    exists|st: St, offset: O, ray: R, color: C|
        {
            &&& #[trigger] call_ensures(exposure.jitter, (st0,), (st, offset))
            &&& #[trigger] call_ensures(exposure.get_ray, (i, j, offset), ray)
            &&& spec_traced(world, shading, bounces, st, ray, st1, color)
            &&& #[trigger] call_ensures(exposure.accumulate, (sum, color), out)
        }
}

/// What a sample of a scene does: see `spec_sample_taken`.
pub open spec fn spec_scene_step<V, S, St, O, R, C, J, K, A, G, Q, P, E, B, M>(
    world: World<V, S>,
    shading: Shading<Q, P, E, B, M, C>,
    exposure: Exposure<J, K, A, G, C>,
    bounces: nat,
) -> Step<St, C> where
    J: Fn(St) -> (St, O),
    K: Fn(u32, u32, O) -> R,
    A: Fn(C, C) -> C,
    G: Fn(C) -> Pixel,
    Q: Fn(&R, &Sphere<V, S>) -> Option<Crossing>,
    P: Fn(St, &R, &Sphere<V, S>, HitInfo, &Material<V, S>) -> (St, R, Rank),
    E: Fn(&R, &Sphere<V, S>, HitInfo, Emission) -> C,
    B: Fn(&R) -> C,
    M: Fn(V, C) -> C,
 {
    |st0: St, i: u32, j: u32, sum: C, st1: St, out: C|
        spec_sample_taken(world, shading, exposure, bounces, st0, i, j, sum, st1, out)
}

/// One sample of the pixel in column `i` of row `j` that sees nothing but the
/// background can take the state `st0` and the colour `sum` to the state `st1`
/// and the colour `out`: the offset of the sample is drawn, which leaves the
/// state `st1`, and the colour of the background behind the ray through that
/// point is added to `sum`.
pub open spec fn spec_sky_taken<St, O, R, C, J, K, A, G, B>(
    background: B,
    exposure: Exposure<J, K, A, G, C>,
    st0: St,
    i: u32,
    j: u32,
    sum: C,
    st1: St,
    out: C,
) -> bool where
    J: Fn(St) -> (St, O),
    K: Fn(u32, u32, O) -> R,
    A: Fn(C, C) -> C,
    G: Fn(C) -> Pixel,
    B: Fn(&R) -> C,
 {
    exists|offset: O, ray: R, color: C|
        {
            &&& #[trigger] call_ensures(exposure.jitter, (st0,), (st1, offset))
            &&& #[trigger] call_ensures(exposure.get_ray, (i, j, offset), ray)
            &&& call_ensures(background, (&ray,), color)
            &&& #[trigger] call_ensures(exposure.accumulate, (sum, color), out)
        }
}

/// What a sample does that sees nothing but the background: see
/// `spec_sky_taken`.
pub open spec fn spec_sky_step<St, O, R, C, J, K, A, G, B>(
    background: B,
    exposure: Exposure<J, K, A, G, C>,
) -> Step<St, C> where
    J: Fn(St) -> (St, O),
    K: Fn(u32, u32, O) -> R,
    A: Fn(C, C) -> C,
    G: Fn(C) -> Pixel,
    B: Fn(&R) -> C,
 {
    |st0: St, i: u32, j: u32, sum: C, st1: St, out: C|
        spec_sky_taken(background, exposure, st0, i, j, sum, st1, out)
}

/// In a scene without objects a sample whose path is not cut off sees the
/// background: it draws the offset and nothing else, and adds the colour of the
/// background behind its ray.
pub proof fn lemma_empty_world_sample<V, S, St, O, R, C, J, K, A, G, Q, P, E, B, M>(
    world: World<V, S>,
    shading: Shading<Q, P, E, B, M, C>,
    exposure: Exposure<J, K, A, G, C>,
    bounces: nat,
    st0: St,
    i: u32,
    j: u32,
    sum: C,
    st1: St,
    out: C,
) where
    J: Fn(St) -> (St, O),
    K: Fn(u32, u32, O) -> R,
    A: Fn(C, C) -> C,
    G: Fn(C) -> Pixel,
    Q: Fn(&R, &Sphere<V, S>) -> Option<Crossing>,
    P: Fn(St, &R, &Sphere<V, S>, HitInfo, &Material<V, S>) -> (St, R, Rank),
    E: Fn(&R, &Sphere<V, S>, HitInfo, Emission) -> C,
    B: Fn(&R) -> C,
    M: Fn(V, C) -> C,

    requires
        world.spec_objects().len() == 0,
        bounces > 0,
        spec_sample_taken(world, shading, exposure, bounces, st0, i, j, sum, st1, out),
    ensures
        spec_sky_taken(shading.background, exposure, st0, i, j, sum, st1, out),
{
    let (st, offset, ray, color) = choose|st: St, offset: O, ray: R, color: C|
        {
            &&& #[trigger] call_ensures(exposure.jitter, (st0,), (st, offset))
            &&& #[trigger] call_ensures(exposure.get_ray, (i, j, offset), ray)
            &&& spec_traced(world, shading, bounces, st, ray, st1, color)
            &&& #[trigger] call_ensures(exposure.accumulate, (sum, color), out)
        };
    lemma_empty_world_is_background(world, shading, bounces, st, ray, st1, color);
    assert(call_ensures(exposure.jitter, (st0,), (st1, offset)));
}

/// A render of a scene without objects is a render of the background: where no
/// path is cut off at once, every sample of every pixel draws its offset and
/// nothing else, and adds the colour of the background behind its ray.
pub proof fn lemma_empty_world_rendered<V, S, St, O, R, C, J, K, A, G, Q, P, E, B, M>(
    world: World<V, S>,
    shading: Shading<Q, P, E, B, M, C>,
    exposure: Exposure<J, K, A, G, C>,
    bounces: nat,
    width: nat,
    samples: nat,
    states: Seq<St>,
    pixels: Seq<Pixel>,
) where
    J: Fn(St) -> (St, O),
    K: Fn(u32, u32, O) -> R,
    A: Fn(C, C) -> C,
    G: Fn(C) -> Pixel,
    Q: Fn(&R, &Sphere<V, S>) -> Option<Crossing>,
    P: Fn(St, &R, &Sphere<V, S>, HitInfo, &Material<V, S>) -> (St, R, Rank),
    E: Fn(&R, &Sphere<V, S>, HitInfo, Emission) -> C,
    B: Fn(&R) -> C,
    M: Fn(V, C) -> C,

    requires
        world.spec_objects().len() == 0,
        bounces > 0,
        spec_rendered(
            spec_scene_step(world, shading, exposure, bounces),
            exposure.finish,
            width,
            samples,
            exposure.start,
            states,
            pixels,
        ),
    ensures
        spec_rendered(
            spec_sky_step(shading.background, exposure),
            exposure.finish,
            width,
            samples,
            exposure.start,
            states,
            pixels,
        ),
{
    let step: Step<St, C> = spec_scene_step(world, shading, exposure, bounces);
    let sky: Step<St, C> = spec_sky_step(shading.background, exposure);
    assert forall|st: St, i: u32, j: u32, c: C, a: St, b: C| #[trigger]
        spec_takes(step, st, i, j, c, a, b) implies spec_takes(sky, st, i, j, c, a, b) by {
        lemma_empty_world_sample(world, shading, exposure, bounces, st, i, j, c, a, b);
    }
    lemma_rendered_weaken(step, sky, exposure.finish, width, samples, exposure.start, states, pixels);
}

/// With one sample for a pixel, each pixel of a render of a scene without
/// objects is the pixel of the background behind its one ray: for the pixel at
/// index `k`, the offset is drawn from the state at index `k`, which leaves the
/// state at index `k + 1`; the ray goes through that point of the pixel in
/// column `k % width` of row `k / width`; and the pixel is made of the colour
/// of the background behind that ray, added to the colour of no sample.
pub proof fn lemma_empty_world_pixel<V, S, St, O, R, C, J, K, A, G, Q, P, E, B, M>(
    world: World<V, S>,
    shading: Shading<Q, P, E, B, M, C>,
    exposure: Exposure<J, K, A, G, C>,
    bounces: nat,
    width: nat,
    states: Seq<St>,
    pixels: Seq<Pixel>,
    k: int,
) where
    J: Fn(St) -> (St, O),
    K: Fn(u32, u32, O) -> R,
    A: Fn(C, C) -> C,
    G: Fn(C) -> Pixel,
    Q: Fn(&R, &Sphere<V, S>) -> Option<Crossing>,
    P: Fn(St, &R, &Sphere<V, S>, HitInfo, &Material<V, S>) -> (St, R, Rank),
    E: Fn(&R, &Sphere<V, S>, HitInfo, Emission) -> C,
    B: Fn(&R) -> C,
    M: Fn(V, C) -> C,

    requires
        world.spec_objects().len() == 0,
        bounces > 0,
        spec_rendered(
            spec_scene_step(world, shading, exposure, bounces),
            exposure.finish,
            width,
            1,
            exposure.start,
            states,
            pixels,
        ),
        0 <= k < pixels.len(),
    ensures
        exists|sum: C|
            {
                &&& spec_sky_taken(
                    shading.background,
                    exposure,
                    states[k],
                    (k % (width as int)) as u32,
                    (k / (width as int)) as u32,
                    exposure.start,
                    states[k + 1],
                    sum,
                )
                &&& #[trigger] call_ensures(exposure.finish, (sum,), pixels[k])
            },
{
    let sky: Step<St, C> = spec_sky_step(shading.background, exposure);
    let i = (k % (width as int)) as u32;
    let j = (k / (width as int)) as u32;
    lemma_empty_world_rendered(world, shading, exposure, bounces, width, 1, states, pixels);
    assert(spec_pixel_made(
        sky,
        exposure.finish,
        i,
        j,
        1,
        exposure.start,
        states[k],
        states[k + 1],
        pixels[k],
    ));
    let sum = choose|sum: C|
        {
            &&& spec_sampled(sky, i, j, 1, states[k], exposure.start, states[k + 1], sum)
            &&& #[trigger] call_ensures(exposure.finish, (sum,), pixels[k])
        };
    lemma_sampled_last(sky, i, j, 1, states[k], exposure.start, states[k + 1], sum);
    let (st, c) = choose|st: St, c: C|
        {
            &&& spec_sampled(sky, i, j, 0, states[k], exposure.start, st, c)
            &&& #[trigger] spec_takes(sky, st, i, j, c, states[k + 1], sum)
        };
    lemma_sampled_last(sky, i, j, 0, states[k], exposure.start, st, c);
    assert(spec_sky_taken(
        shading.background,
        exposure,
        states[k],
        i,
        j,
        exposure.start,
        states[k + 1],
        sum,
    ));
}

/// A sample of a scene is determined by what it begins with: where every part
/// of the arithmetic gives one answer to one question, so does the sample.
pub proof fn lemma_scene_step_functional<V, S, St, O, R, C, J, K, A, G, Q, P, E, B, M>(
    world: World<V, S>,
    shading: Shading<Q, P, E, B, M, C>,
    exposure: Exposure<J, K, A, G, C>,
    bounces: nat,
) where
    J: Fn(St) -> (St, O),
    K: Fn(u32, u32, O) -> R,
    A: Fn(C, C) -> C,
    G: Fn(C) -> Pixel,
    Q: Fn(&R, &Sphere<V, S>) -> Option<Crossing>,
    P: Fn(St, &R, &Sphere<V, S>, HitInfo, &Material<V, S>) -> (St, R, Rank),
    E: Fn(&R, &Sphere<V, S>, HitInfo, Emission) -> C,
    B: Fn(&R) -> C,
    M: Fn(V, C) -> C,

    requires
        shading.spec_functional::<V, S, St, R>(),
        exposure.spec_functional::<St, O, R>(),
    ensures
        spec_step_functional::<St, C>(spec_scene_step(world, shading, exposure, bounces)),
{
    let step: Step<St, C> = spec_scene_step(world, shading, exposure, bounces);
    assert forall|st0: St, i: u32, j: u32, sum: C, a: (St, C), b: (St, C)|
        #[trigger] spec_takes(step, st0, i, j, sum, a.0, a.1) && #[trigger] spec_takes(
            step,
            st0,
            i,
            j,
            sum,
            b.0,
            b.1,
        ) implies a == b by {
        let (sa, oa, ra, ca) = choose|st: St, offset: O, ray: R, color: C|
            {
                &&& #[trigger] call_ensures(exposure.jitter, (st0,), (st, offset))
                &&& #[trigger] call_ensures(exposure.get_ray, (i, j, offset), ray)
                &&& spec_traced(world, shading, bounces, st, ray, a.0, color)
                &&& #[trigger] call_ensures(exposure.accumulate, (sum, color), a.1)
            };
        let (sb, ob, rb, cb) = choose|st: St, offset: O, ray: R, color: C|
            {
                &&& #[trigger] call_ensures(exposure.jitter, (st0,), (st, offset))
                &&& #[trigger] call_ensures(exposure.get_ray, (i, j, offset), ray)
                &&& spec_traced(world, shading, bounces, st, ray, b.0, color)
                &&& #[trigger] call_ensures(exposure.accumulate, (sum, color), b.1)
            };
        assert((sa, oa) == (sb, ob));
        assert(ra == rb);
        lemma_traced_deterministic(world, shading, bounces, sa, ra, (a.0, ca), (b.0, cb));
    }
}

/// A render of a scene is determined by what it begins with: where every part
/// of the arithmetic gives one answer to one question, two renders of the same
/// scene and size that begin in the same state make the same pixels, and so the
/// same text, and go through the same states.
pub proof fn lemma_scene_rendered_deterministic<V, S, St, O, R, C, J, K, A, G, Q, P, E, B, M>(
    world: World<V, S>,
    shading: Shading<Q, P, E, B, M, C>,
    exposure: Exposure<J, K, A, G, C>,
    bounces: nat,
    width: nat,
    height: nat,
    samples: nat,
    states1: Seq<St>,
    pixels1: Seq<Pixel>,
    states2: Seq<St>,
    pixels2: Seq<Pixel>,
) where
    J: Fn(St) -> (St, O),
    K: Fn(u32, u32, O) -> R,
    A: Fn(C, C) -> C,
    G: Fn(C) -> Pixel,
    Q: Fn(&R, &Sphere<V, S>) -> Option<Crossing>,
    P: Fn(St, &R, &Sphere<V, S>, HitInfo, &Material<V, S>) -> (St, R, Rank),
    E: Fn(&R, &Sphere<V, S>, HitInfo, Emission) -> C,
    B: Fn(&R) -> C,
    M: Fn(V, C) -> C,

    requires
        shading.spec_functional::<V, S, St, R>(),
        exposure.spec_functional::<St, O, R>(),
        spec_rendered(
            spec_scene_step(world, shading, exposure, bounces),
            exposure.finish,
            width,
            samples,
            exposure.start,
            states1,
            pixels1,
        ),
        spec_rendered(
            spec_scene_step(world, shading, exposure, bounces),
            exposure.finish,
            width,
            samples,
            exposure.start,
            states2,
            pixels2,
        ),
        states1.first() == states2.first(),
        pixels1.len() == pixels2.len(),
    ensures
        pixels1 == pixels2,
        states1 == states2,
        spec_ppm(width, height, pixels1) == spec_ppm(width, height, pixels2),
{
    lemma_scene_step_functional::<V, S, St, O, R, C, J, K, A, G, Q, P, E, B, M>(
        world,
        shading,
        exposure,
        bounces,
    );
    lemma_rendered_deterministic(
        spec_scene_step(world, shading, exposure, bounces),
        exposure.finish,
        width,
        samples,
        exposure.start,
        states1,
        pixels1,
        states2,
        pixels2,
    );
}

/// What a render is run with.
pub struct Renderer {
    samples_per_pixel: u32,
    max_bounces: u32,
}

impl Renderer {
    /// The number of paths that are averaged for one pixel.
    pub closed spec fn spec_samples_per_pixel(&self) -> nat {
        self.samples_per_pixel as nat
    }

    /// The number of surfaces that a path may meet before it is cut off.
    pub closed spec fn spec_max_bounces(&self) -> nat {
        self.max_bounces as nat
    }

    /// A renderer that averages `samples_per_pixel` paths for each pixel and
    /// lets a path meet `max_bounces` surfaces.
    pub fn new(samples_per_pixel: u32, max_bounces: u32) -> (renderer: Self)
        ensures
            renderer.spec_samples_per_pixel() == samples_per_pixel,
            renderer.spec_max_bounces() == max_bounces,
    {
        Self { samples_per_pixel, max_bounces }
    }

    /// The number of paths that are averaged for one pixel.
    pub fn samples_per_pixel(&self) -> (n: u32)
        ensures
            n == self.spec_samples_per_pixel(),
    {
        self.samples_per_pixel
    }

    /// The number of surfaces that a path may meet before it is cut off.
    pub fn max_bounces(&self) -> (n: u32)
        ensures
            n == self.spec_max_bounces(),
    {
        self.max_bounces
    }

    /// Renders an image of `width` by `height` pixels with samples that
    /// `sample` takes.
    ///
    /// The pixels are made row by row from the top, and in a row from the left.
    /// For each pixel `sample` is called `samples_per_pixel` times with the
    /// column and the row of the pixel: the first time with the colour `start`,
    /// and then with the colour that it returned the time before. `finish` makes
    /// the pixel of the last colour, or of `start` where no sample is taken.
    /// After the last pixel of a row, `row_done` is called with the number of
    /// the row.
    ///
    /// `state` is what the samples draw from. Each call of `sample` gets it as
    /// the call before has left it, from the first sample of the first pixel to
    /// the last sample of the last pixel; it comes back as the last call has
    /// left it, with the complete image. `progress` is what the rows are
    /// reported to: each call of `row_done` gets it as the call before has left
    /// it, and it comes back as the last call has left it.
    pub fn render_with<St, Pr, C, F, G, H>(
        &self,
        width: u32,
        height: u32,
        state: St,
        progress: Pr,
        start: C,
        sample: F,
        finish: &G,
        row_done: &H,
    ) -> (out: (St, Pr, Image)) where
        C: Copy,
        F: Fn(St, u32, u32, C) -> (St, C),
        G: Fn(C) -> Pixel,
        H: Fn(Pr, u32) -> Pr,

        requires
            forall|st: St, i: u32, j: u32, c: C| call_requires(sample, (st, i, j, c)),
            forall|c: C| call_requires(*finish, (c,)),
            forall|pr: Pr, j: u32| call_requires(*row_done, (pr, j)),
        ensures
            out.2.wf(),
            out.2.spec_width() == width,
            out.2.spec_height() == height,
            out.2.spec_complete(),
            exists|states: Seq<St>|
                {
                    &&& #[trigger] spec_rendered(
                        spec_step_of(sample),
                        *finish,
                        width as nat,
                        self.spec_samples_per_pixel(),
                        start,
                        states,
                        out.2.spec_pixels(),
                    )
                    &&& states.first() == state
                    &&& states.last() == out.0
                },
            exists|reports: Seq<Pr>|
                {
                    &&& #[trigger] spec_rows_done(*row_done, reports)
                    &&& reports.len() == spec_rows(width as nat, height as nat) + 1
                    &&& reports.first() == progress
                    &&& reports.last() == out.1
                },
    {
        let mut image = Image::new(width, height);
        let ghost first = state;
        let ghost step = spec_step_of(sample);
        let mut state = state;
        let ghost mut states: Seq<St> = seq![state];
        let ghost begun = progress;
        let mut progress = progress;
        let ghost mut reports: Seq<Pr> = seq![progress];
        loop
            invariant
                image.wf(),
                image.spec_width() == width,
                image.spec_height() == height,
                step == spec_step_of(sample),
                forall|st: St, i: u32, j: u32, c: C| call_requires(sample, (st, i, j, c)),
                forall|c: C| call_requires(*finish, (c,)),
                forall|pr: Pr, j: u32| call_requires(*row_done, (pr, j)),
                spec_rows_done(*row_done, reports),
                reports.first() == begun,
                reports.last() == progress,
                reports.len() >= 1,
                width > 0 ==> reports.len() - 1 == (image.spec_pixels().len() as int) / (width as int),
                width == 0 ==> reports.len() == 1,
                spec_rendered(
                    step,
                    *finish,
                    width as nat,
                    self.spec_samples_per_pixel(),
                    start,
                    states,
                    image.spec_pixels(),
                ),
                states.first() == first,
                states.last() == state,
            ensures
                image.spec_complete(),
            decreases width * height - image.spec_pixels().len(),
        {
            proof {
                image.lemma_bounded();
            }
            let next = image.next_pixel();
            if next.is_none() {
                break ;
            }
            let ghost reported = reports;
            let (i, j) = next.unwrap();
            let ghost before = state;
            let ghost made = image.spec_pixels();
            let mut color = start;
            let mut taken: u32 = 0;
            while taken < self.samples_per_pixel
                invariant
                    taken <= self.samples_per_pixel,
                    step == spec_step_of(sample),
                    forall|st: St, i: u32, j: u32, c: C| call_requires(sample, (st, i, j, c)),
                    spec_sampled(step, i, j, taken as nat, before, start, state, color),
                decreases self.samples_per_pixel - taken,
            {
                let ghost st = state;
                let ghost c = color;
                let (next_state, next_color) = sample(state, i, j, color);
                state = next_state;
                color = next_color;
                proof {
                    assert(spec_takes(step, st, i, j, c, state, color));
                    lemma_sampled_step(step, i, j, taken as nat, before, start, st, c, state, color);
                }
                taken += 1;
            }
            let pixel = finish(color);
            image.add_pixel(pixel);
            proof {
                let pixels = image.spec_pixels();
                let earlier = states;
                states = states.push(state);
                let last = made.len() as int;
                assert(j * width + i == last);
                assert(last % (width as int) == i && last / (width as int) == j)
                    by (nonlinear_arith)
                    requires
                        j * width + i == last,
                        0 <= i < width,
                        0 <= j,
                ;
                assert forall|k: int| 0 <= k < pixels.len() implies spec_pixel_made(
                    step,
                    *finish,
                    (k % (width as int)) as u32,
                    (k / (width as int)) as u32,
                    self.spec_samples_per_pixel(),
                    start,
                    states[k],
                    states[k + 1],
                    #[trigger] pixels[k],
                ) by {
                    if k < last {
                        assert(pixels[k] == made[k]);
                        assert(states[k] == earlier[k]);
                        assert(states[k + 1] == earlier[k + 1]);
                    } else {
                        assert(states[k] == before);
                        assert(states[k + 1] == state);
                        assert(call_ensures(*finish, (color,), pixels[k]));
                    }
                }
            }
            proof {
                let last = made.len() as int;
                assert(last / (width as int) == j && (last + 1) / (width as int) == if i + 1
                    == width {
                    j + 1
                } else {
                    j as int
                }) by (nonlinear_arith)
                    requires
                        j * width + i == last,
                        0 <= i < width,
                        0 <= j,
                ;
            }
            if i + 1 == width {
                let ghost before_report = progress;
                progress = row_done(progress, j);
                proof {
                    reports = reports.push(progress);
                    assert forall|m: int| 0 <= m < reports.len() - 1 implies call_ensures(
                        *row_done,
                        (#[trigger] reports[m], m as u32),
                        reports[m + 1],
                    ) by {
                        if m < reported.len() - 1 {
                            assert(reports[m] == reported[m]);
                            assert(reports[m + 1] == reported[m + 1]);
                        } else {
                            assert(reports[m] == before_report);
                            assert(m == j);
                        }
                    }
                }
            }
        }
        proof {
            if width > 0 {
                let n = image.spec_pixels().len() as int;
                assert(n / (width as int) == height) by (nonlinear_arith)
                    requires
                        n == width * height,
                        width > 0,
                ;
            }
        }
        (state, progress, image)
    }

    /// Takes one sample of the pixel in column `i` of row `j`.
    ///
    /// The offset of the sample in its pixel is drawn first. Then the path along
    /// the ray through that point is followed into `world`, with `max_bounces`
    /// bounces to begin with, and the colour that comes back along it is added
    /// to `sum`. `state` is what is drawn from; it comes back as the last draw
    /// has left it.
    pub fn sample_pixel<V, S, St, O, R, C, J, K, A, G, Q, P, E, B, M>(
        &self,
        world: &World<V, S>,
        shading: &Shading<Q, P, E, B, M, C>,
        exposure: &Exposure<J, K, A, G, C>,
        state: St,
        i: u32,
        j: u32,
        sum: C,
    ) -> (out: (St, C)) where
        V: Copy,
        S: Copy,
        C: Copy,
        J: Fn(St) -> (St, O),
        K: Fn(u32, u32, O) -> R,
        A: Fn(C, C) -> C,
        G: Fn(C) -> Pixel,
        Q: Fn(&R, &Sphere<V, S>) -> Option<Crossing>,
        P: Fn(St, &R, &Sphere<V, S>, HitInfo, &Material<V, S>) -> (St, R, Rank),
        E: Fn(&R, &Sphere<V, S>, HitInfo, Emission) -> C,
        B: Fn(&R) -> C,
        M: Fn(V, C) -> C,

        requires
            shading.spec_ready::<V, S, St, R>(),
            exposure.spec_ready::<St, O, R>(),
        ensures
            spec_sample_taken(
                *world,
                *shading,
                *exposure,
                self.spec_max_bounces(),
                state,
                i,
                j,
                sum,
                out.0,
                out.1,
            ),
    {
        let (state, offset) = (exposure.jitter)(state);
        let ray = (exposure.get_ray)(i, j, offset);
        let (state, color) = Renderer::ray_color(world, shading, state, ray, self.max_bounces);
        let sum = (exposure.accumulate)(sum, color);
        (state, sum)
    }

    /// Renders an image of `width` by `height` pixels of `world`.
    ///
    /// The pixels are made row by row from the top, and in a row from the left.
    /// For each pixel `samples_per_pixel` samples are taken, one after the other,
    /// each as `sample_pixel` takes it: the first adds to the colour of no
    /// sample, and each of the others to what the one before has left. The pixel
    /// is made of what the last one leaves. After the last pixel of a row,
    /// `row_done` is called with the number of the row.
    ///
    /// `state` is what is drawn from. Each sample gets it as the sample before
    /// has left it, from the first sample of the first pixel to the last sample
    /// of the last pixel; it comes back as the last sample has left it, with the
    /// complete image. `progress` is what the rows are reported to: each call of
    /// `row_done` gets it as the call before has left it, and it comes back as
    /// the last call has left it.
    pub fn render<V, S, St, Pr, O, R, C, J, K, A, G, H, Q, P, E, B, M>(
        &self,
        world: &World<V, S>,
        shading: &Shading<Q, P, E, B, M, C>,
        exposure: &Exposure<J, K, A, G, C>,
        width: u32,
        height: u32,
        state: St,
        progress: Pr,
        row_done: &H,
    ) -> (out: (St, Pr, Image)) where
        V: Copy,
        S: Copy,
        C: Copy,
        H: Fn(Pr, u32) -> Pr,
        J: Fn(St) -> (St, O),
        K: Fn(u32, u32, O) -> R,
        A: Fn(C, C) -> C,
        G: Fn(C) -> Pixel,
        Q: Fn(&R, &Sphere<V, S>) -> Option<Crossing>,
        P: Fn(St, &R, &Sphere<V, S>, HitInfo, &Material<V, S>) -> (St, R, Rank),
        E: Fn(&R, &Sphere<V, S>, HitInfo, Emission) -> C,
        B: Fn(&R) -> C,
        M: Fn(V, C) -> C,

        requires
            shading.spec_ready::<V, S, St, R>(),
            exposure.spec_ready::<St, O, R>(),
            forall|pr: Pr, j: u32| call_requires(*row_done, (pr, j)),
        ensures
            out.2.wf(),
            out.2.spec_width() == width,
            out.2.spec_height() == height,
            out.2.spec_complete(),
            exists|reports: Seq<Pr>|
                {
                    &&& #[trigger] spec_rows_done(*row_done, reports)
                    &&& reports.len() == spec_rows(width as nat, height as nat) + 1
                    &&& reports.first() == progress
                    &&& reports.last() == out.1
                },
            exists|states: Seq<St>|
                {
                    &&& #[trigger] spec_rendered(
                        spec_scene_step(*world, *shading, *exposure, self.spec_max_bounces()),
                        exposure.finish,
                        width as nat,
                        self.spec_samples_per_pixel(),
                        exposure.start,
                        states,
                        out.2.spec_pixels(),
                    )
                    &&& states.first() == state
                    &&& states.last() == out.0
                },
    {
        let sample = |st: St, i: u32, j: u32, sum: C| -> (taken: (St, C))
            requires
                shading.spec_ready::<V, S, St, R>(),
                exposure.spec_ready::<St, O, R>(),
            ensures
                spec_sample_taken(
                    *world,
                    *shading,
                    *exposure,
                    self.spec_max_bounces(),
                    st,
                    i,
                    j,
                    sum,
                    taken.0,
                    taken.1,
                ),
            { self.sample_pixel(world, shading, exposure, st, i, j, sum) };
        let out = self.render_with(
            width,
            height,
            state,
            progress,
            exposure.start,
            sample,
            &exposure.finish,
            row_done,
        );
        proof {
            let called: Step<St, C> = spec_step_of(sample);
            let scene: Step<St, C> = spec_scene_step(
                *world,
                *shading,
                *exposure,
                self.spec_max_bounces(),
            );
            let states = choose|states: Seq<St>|
                {
                    &&& #[trigger] spec_rendered(
                        called,
                        exposure.finish,
                        width as nat,
                        self.spec_samples_per_pixel(),
                        exposure.start,
                        states,
                        out.2.spec_pixels(),
                    )
                    &&& states.first() == state
                    &&& states.last() == out.0
                };
            assert forall|st: St, i: u32, j: u32, c: C, a: St, b: C| #[trigger]
                spec_takes(called, st, i, j, c, a, b) implies spec_takes(scene, st, i, j, c, a, b) by {
                assert(call_ensures(sample, (st, i, j, c), (a, b)));
            }
            lemma_rendered_weaken(
                called,
                scene,
                exposure.finish,
                width as nat,
                self.spec_samples_per_pixel(),
                exposure.start,
                states,
                out.2.spec_pixels(),
            );
        }
        out
    }

    /// The range of parameters in which a path looks for the next surface: the
    /// open range from `NEAR_LIMIT` to infinity.
    pub fn ray_range() -> (range: Interval)
        ensures
            range == spec_ray_range(),
            range.wf(),
            range.lo() == NEAR_LIMIT,
            range.hi() == INFINITY,
    {
        Interval::new(NEAR_LIMIT, INFINITY)
    }

    /// Follows a path into the scene and brings back the colour that comes
    /// along it.
    ///
    /// `bounces` is how many surfaces the path may still meet, `state` is what
    /// is drawn from on the way, and `shading` is the arithmetic. The state
    /// comes back as the last draw has left it.
    pub fn ray_color<V, S, St, R, C, Q, P, E, B, M>(
        world: &World<V, S>,
        shading: &Shading<Q, P, E, B, M, C>,
        state: St,
        ray: R,
        bounces: u32,
    ) -> (out: (St, C)) where
        V: Copy,
        S: Copy,
        C: Copy,
        Q: Fn(&R, &Sphere<V, S>) -> Option<Crossing>,
        P: Fn(St, &R, &Sphere<V, S>, HitInfo, &Material<V, S>) -> (St, R, Rank),
        E: Fn(&R, &Sphere<V, S>, HitInfo, Emission) -> C,
        B: Fn(&R) -> C,
        M: Fn(V, C) -> C,

        requires
            shading.spec_ready::<V, S, St, R>(),
        ensures
            spec_traced(*world, *shading, bounces as nat, state, ray, out.0, out.1),
        decreases bounces,
    {
        let left = match Renderer::bounce(bounces) {
            Some(left) => left,
            None => {
                return (state, shading.black);
            },
        };
        let objects = world.objects();
        let materials = world.materials();
        let mut crossings: Vec<Option<Crossing>> = Vec::new();
        let mut k: usize = 0;
        while k < objects.len()
            invariant
                k <= objects@.len(),
                crossings@.len() == k,
                shading.spec_ready::<V, S, St, R>(),
                forall|j: int|
                    0 <= j < k ==> call_ensures(
                        shading.cross,
                        (&ray, &objects@[j]),
                        #[trigger] crossings@[j],
                    ),
            decreases objects@.len() - k,
        {
            let crossing = (shading.cross)(&ray, &objects[k]);
            crossings.push(crossing);
            k += 1;
        }
        assert(spec_crossed(shading.cross, ray, world.spec_objects(), crossings@));
        match world.check_intersection(&crossings, Renderer::ray_range()) {
            None => {
                let color = (shading.background)(&ray);
                (state, color)
            },
            Some((nearest, hit)) => {
                assert(spec_met(*world, crossings@, nearest as int, hit));
                let object = &objects[nearest];
                let material = &materials[hit.material];
                if !material.may_scatter() {
                    let color = (shading.emitted)(&ray, object, hit, material.emitted());
                    (state, color)
                } else {
                    let (state, scattered, facing) = (shading.propose)(
                        state,
                        &ray,
                        object,
                        hit,
                        material,
                    );
                    match material.scatter(facing) {
                        None => {
                            let color = (shading.emitted)(&ray, object, hit, material.emitted());
                            (state, color)
                        },
                        Some(attenuation) => {
                            let (state, color) = Renderer::ray_color(
                                world,
                                shading,
                                state,
                                scattered,
                                left,
                            );
                            let color = (shading.attenuate)(attenuation, color);
                            (state, color)
                        },
                    }
                }
            },
        }
    }

    /// Takes one bounce from what is left of the budget of a path.
    ///
    /// A path with nothing left is cut off before it looks for a surface, and
    /// brings back black: the result is then `None`. Else the path may meet one
    /// more surface, and the result is what is left for the path that goes on
    /// from there.
    pub fn bounce(bounces_remaining: u32) -> (left: Option<u32>)
        ensures
            bounces_remaining == 0 ==> left is None,
            bounces_remaining > 0 ==> left == Some((bounces_remaining - 1) as u32),
    {
        if bounces_remaining == 0 {
            None
        } else {
            Some(bounces_remaining - 1)
        }
    }
}

} // verus!
