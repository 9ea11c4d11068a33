use pathtracer::color::Pixel;
use pathtracer::math::geometry::Crossing;
use pathtracer::math::geometry::HitInfo;
use pathtracer::math::geometry::Sphere;
use pathtracer::math::vector::is_near_zero;
use pathtracer::rendering::material::DummyMaterial;
use pathtracer::rendering::material::Emission;
use pathtracer::rendering::material::Lambertian;
use pathtracer::rendering::material::Material;
use pathtracer::rendering::material::Metal;
use pathtracer::rendering::material::NormalVisualizer;
use pathtracer::rendering::image::Image;
use pathtracer::rendering::renderer::Exposure;
use pathtracer::rendering::renderer::Renderer;
use pathtracer::rendering::renderer::Shading;
use pathtracer::rendering::sampler::accepts;
use pathtracer::world::World;
use rand::rngs::SmallRng;
use rand::Rng;
use rand::SeedableRng;

// A small path tracer around the library: the real arithmetic of it.

type Vec3 = [f64; 3];
type Scene = World<Vec3, f64>;

fn add(a: Vec3, b: Vec3) -> Vec3 {
    [a[0] + b[0], a[1] + b[1], a[2] + b[2]]
}

fn sub(a: Vec3, b: Vec3) -> Vec3 {
    [a[0] - b[0], a[1] - b[1], a[2] - b[2]]
}

fn scale(a: Vec3, s: f64) -> Vec3 {
    [a[0] * s, a[1] * s, a[2] * s]
}

fn times(a: Vec3, b: Vec3) -> Vec3 {
    [a[0] * b[0], a[1] * b[1], a[2] * b[2]]
}

fn dot(a: Vec3, b: Vec3) -> f64 {
    a[0] * b[0] + a[1] * b[1] + a[2] * b[2]
}

fn cross(a: Vec3, b: Vec3) -> Vec3 {
    [a[1] * b[2] - a[2] * b[1], a[2] * b[0] - a[0] * b[2], a[0] * b[1] - a[1] * b[0]]
}

fn length(a: Vec3) -> f64 {
    dot(a, a).sqrt()
}

fn normalized(a: Vec3) -> Vec3 {
    scale(a, 1.0 / length(a))
}

fn rank(x: f64) -> i64 {
    if x.is_nan() {
        return i64::MIN;
    }
    let bits = x.to_bits() as i64;
    if bits >= 0 {
        bits
    } else {
        i64::MIN - bits
    }
}

fn unrank(r: i64) -> f64 {
    if r == i64::MIN {
        f64::NAN
    } else if r >= 0 {
        f64::from_bits(r as u64)
    } else {
        f64::from_bits((i64::MIN - r) as u64)
    }
}

#[derive(Clone, Copy)]
struct Ray {
    origin: Vec3,
    direction: Vec3,
}

fn ray(origin: Vec3, direction: Vec3) -> Ray {
    Ray { origin, direction: normalized(direction) }
}

trait Sampler {
    fn next_f64(&mut self) -> f64;

    fn unit_vector(&mut self) -> Vec3 {
        loop {
            let p = [
                2.0 * self.next_f64() - 1.0,
                2.0 * self.next_f64() - 1.0,
                2.0 * self.next_f64() - 1.0,
            ];
            let length_squared = dot(p, p);
            if accepts(rank(length_squared)) {
                return scale(p, 1.0 / length_squared.sqrt());
            }
        }
    }

    fn in_square(&mut self) -> Vec3 {
        let a = self.next_f64();
        let b = self.next_f64();
        [a - 0.5, b - 0.5, 0.0]
    }
}

struct RandomSampler {
    rng: SmallRng,
}

impl Sampler for RandomSampler {
    fn next_f64(&mut self) -> f64 {
        self.rng.random()
    }
}

/// A sampler that always draws one half: every sample goes through the middle of
/// its pixel.
struct Centered;

impl Sampler for Centered {
    fn next_f64(&mut self) -> f64 {
        0.5
    }
}

struct Camera {
    image_width: u32,
    image_height: u32,
    center: Vec3,
    pixel_upper_left: Vec3,
    pixel_delta_u: Vec3,
    pixel_delta_v: Vec3,
}

fn camera(aspect_ratio: f64, image_width: u32, fov: u32, look_from: Vec3, look_at: Vec3) -> Camera {
    let image_height = ((image_width as f64 / aspect_ratio).round() as u32).max(1);
    let focal_length = length(sub(look_from, look_at));
    let h = ((fov as f64).to_radians() / 2.0).tan();
    let viewport_height = 2.0 * h * focal_length;
    let viewport_width = viewport_height * (image_width as f64) / (image_height as f64);
    let w = normalized(sub(look_from, look_at));
    let u = normalized(cross([0.0, 1.0, 0.0], w));
    let v = cross(w, u);
    let viewport_u = scale(u, viewport_width);
    let viewport_v = scale(v, -viewport_height);
    let pixel_delta_u = scale(viewport_u, 1.0 / image_width as f64);
    let pixel_delta_v = scale(viewport_v, 1.0 / image_height as f64);
    let upper_left = sub(
        sub(sub(look_from, scale(w, focal_length)), scale(viewport_u, 0.5)),
        scale(viewport_v, 0.5),
    );
    Camera {
        image_width,
        image_height,
        center: look_from,
        pixel_upper_left: add(upper_left, scale(add(pixel_delta_u, pixel_delta_v), 0.5)),
        pixel_delta_u,
        pixel_delta_v,
    }
}

fn get_ray(camera: &Camera, i: u32, j: u32, offset: Vec3) -> Ray {
    let sample = add(
        add(camera.pixel_upper_left, scale(camera.pixel_delta_u, i as f64 + offset[0])),
        scale(camera.pixel_delta_v, j as f64 + offset[1]),
    );
    ray(camera.center, sub(sample, camera.center))
}

fn crossing(ray: &Ray, sphere: &Sphere<Vec3, f64>) -> Option<Crossing> {
    let oc = sub(sphere.center, ray.origin);
    let a = dot(ray.direction, ray.direction);
    let h = dot(ray.direction, oc);
    let c = dot(oc, oc) - sphere.radius * sphere.radius;
    let discriminant = h * h - a * c;
    if discriminant < 0.0 {
        return None;
    }
    let sqrt_d = discriminant.sqrt();
    let near = (h - sqrt_d) / a;
    let far = (h + sqrt_d) / a;
    if near <= far {
        Some(Crossing::new(rank(near), rank(far)))
    } else {
        None
    }
}

/// The point at which the ray has met the sphere, and the normal there.
fn locate(ray: &Ray, sphere: &Sphere<Vec3, f64>, hit: HitInfo) -> (Vec3, Vec3) {
    let location = add(ray.origin, scale(ray.direction, unrank(hit.t)));
    let normal = scale(sub(location, sphere.center), 1.0 / sphere.radius);
    (location, normal)
}

/// The object that the ray meets first.
fn intersect(world: &Scene, ray: &Ray) -> Option<usize> {
    let crossings: Vec<Option<Crossing>> =
        world.objects().iter().map(|object| crossing(ray, object)).collect();
    let (k, _) = world.check_intersection(&crossings, Renderer::ray_range())?;
    Some(k)
}

fn background(ray: &Ray) -> Vec3 {
    let t = 0.5 * (normalized(ray.direction)[1] + 1.0);
    add(scale([1.0, 1.0, 1.0], 1.0 - t), scale([0.5, 0.7, 1.0], t))
}

fn propose<'a>(
    sampler: &'a mut dyn Sampler,
    ray: &Ray,
    sphere: &Sphere<Vec3, f64>,
    hit: HitInfo,
    material: &Material<Vec3, f64>,
) -> (&'a mut dyn Sampler, Ray, i64) {
    let (location, normal) = locate(ray, sphere, hit);
    let direction = match material {
        Material::Lambertian(_) => {
            let d = add(normal, sampler.unit_vector());
            if is_near_zero(rank(d[0]), rank(d[1]), rank(d[2])) {
                normal
            } else {
                d
            }
        }
        Material::Metal(metal) => {
            let mirrored = sub(ray.direction, scale(normal, 2.0 * dot(ray.direction, normal)));
            add(normalized(mirrored), scale(sampler.unit_vector(), metal.fuzz))
        }
        _ => normal,
    };
    let scattered = self::ray(location, direction);
    let facing = rank(dot(scattered.direction, normal));
    (sampler, scattered, facing)
}

fn emitted(ray: &Ray, sphere: &Sphere<Vec3, f64>, hit: HitInfo, emission: Emission) -> Vec3 {
    match emission {
        Emission::Black => [0.0, 0.0, 0.0],
        Emission::Normal => scale(add(locate(ray, sphere, hit).1, [1.0, 1.0, 1.0]), 0.5),
    }
}

fn ray_color<'a>(
    ray: Ray,
    bounces: u32,
    world: &Scene,
    sampler: &'a mut dyn Sampler,
) -> (&'a mut dyn Sampler, Vec3) {
    let shading = Shading {
        cross: crossing,
        propose,
        emitted,
        background,
        attenuate: times,
        black: [0.0, 0.0, 0.0],
    };
    Renderer::ray_color(world, &shading, sampler, ray, bounces)
}

fn gamma(channel: f64) -> f64 {
    if channel > 0.0 {
        channel.sqrt()
    } else {
        0.0
    }
}

fn to_pixel(color: Vec3) -> Pixel {
    Pixel::from_intensities(rank(gamma(color[0])), rank(gamma(color[1])), rank(gamma(color[2])))
}

fn jitter<'a>(sampler: &'a mut dyn Sampler) -> (&'a mut dyn Sampler, Vec3) {
    let offset = sampler.in_square();
    (sampler, offset)
}

fn render(renderer: &Renderer, world: &Scene, camera: &Camera, sampler: &mut dyn Sampler) -> Image {
    let samples_scale = 1.0 / renderer.samples_per_pixel() as f64;
    let shading = Shading {
        cross: crossing,
        propose,
        emitted,
        background,
        attenuate: times,
        black: [0.0, 0.0, 0.0],
    };
    let exposure = Exposure {
        jitter,
        get_ray: |i: u32, j: u32, offset: Vec3| get_ray(camera, i, j, offset),
        accumulate: add,
        finish: |color: Vec3| to_pixel(scale(color, samples_scale)),
        start: [0.0, 0.0, 0.0],
    };
    let (_, rows, image) = renderer.render(
        world,
        &shading,
        &exposure,
        camera.image_width,
        camera.image_height,
        sampler,
        0u32,
        &|rows: u32, _row: u32| rows + 1,
    );
    assert_eq!(rows, camera.image_height);
    image
}

fn seeded(seed: u64) -> RandomSampler {
    RandomSampler { rng: SmallRng::seed_from_u64(seed) }
}

/// A small ball in front of the camera on a ground that is a very large ball.
fn ball_on_the_ground() -> Scene {
    let mut world = World::new();
    let matte = world.add_material(Material::Lambertian(Lambertian::new([0.5, 0.5, 0.5])));
    world.add(Sphere { center: [0.0, 0.0, -1.0], radius: 0.5, material: matte });
    world.add(Sphere { center: [0.0, -100.5, -1.0], radius: 100.0, material: matte });
    world
}

#[test]
fn renderer_smoke_test() {
    let mut sampler = seeded(1337);

    let camera = camera(1.0, 32, 90, [0.0, 0.0, 0.0], [0.0, -1.0, 0.0]);

    let world: Scene = World::new();

    let renderer = Renderer::new(1, 1);

    let image = render(&renderer, &world, &camera, &mut sampler);

    assert_eq!(image.pixels().len(), 32 * 32);
}

#[test]
fn empty_world_renders_the_sky() {
    let camera = camera(1.0, 100, 90, [0.0, 0.0, 0.0], [0.0, 0.0, -1.0]);
    assert_eq!((camera.image_width, camera.image_height), (100, 100));
    let world: Scene = World::new();
    let renderer = Renderer::new(1, 1);
    let image = render(&renderer, &world, &camera, &mut Centered);

    let text = image.write_ppm();
    let lines: Vec<&str> = text.lines().collect();
    assert_eq!(&lines[..3], ["P3", "100 100", "255"]);
    assert_eq!(lines.len() - 3, 100 * 100);
    for j in 0..100u32 {
        for i in 0..100u32 {
            let sky = to_pixel(background(&get_ray(&camera, i, j, [0.0, 0.0, 0.0])));
            assert_eq!(image.pixels()[(j * 100 + i) as usize], sky);
            assert_eq!(lines[3 + (j * 100 + i) as usize], sky.write());
        }
    }
    // The sky is white at the bottom and blue at the top, so the rows differ.
    assert!(image.pixels()[0].r < image.pixels()[99 * 100].r);
}

#[test]
fn empty_world_renders_the_sky_with_any_jitter() {
    let camera = camera(1.0, 100, 90, [0.0, 0.0, 0.0], [0.0, 0.0, -1.0]);
    let world: Scene = World::new();
    let image = render(&Renderer::new(4, 10), &world, &camera, &mut seeded(7));
    assert_eq!(image.pixels().len(), 100 * 100);
    for j in 0..100u32 {
        for i in 0..100u32 {
            // Every sample of the pixel lies between its upper and its lower edge.
            let above = to_pixel(background(&get_ray(&camera, i, j, [0.0, -0.5, 0.0])));
            let below = to_pixel(background(&get_ray(&camera, i, j, [0.0, 0.5, 0.0])));
            let pixel = image.pixels()[(j * 100 + i) as usize];
            assert!(above.r <= pixel.r && pixel.r <= below.r);
            assert!(above.g <= pixel.g && pixel.g <= below.g);
            assert_eq!(pixel.b, 255);
        }
    }
}

#[test]
fn single_bounce_darkens_what_is_hit() {
    let camera = camera(16.0 / 9.0, 160, 90, [0.0, 0.0, 0.0], [0.0, 0.0, -1.0]);
    assert_eq!((camera.image_width, camera.image_height), (160, 90));
    let world = ball_on_the_ground();
    let renderer = Renderer::new(1, 1);
    let image = render(&renderer, &world, &camera, &mut seeded(1337));

    let text = image.write_ppm();
    let lines: Vec<&str> = text.lines().collect();
    assert_eq!(lines.len() - 3, 160 * 90);
    for line in &lines[3..] {
        let channels: Vec<u32> = line.split(' ').map(|n| n.parse().unwrap()).collect();
        assert_eq!(channels.len(), 3);
        assert!(channels.iter().all(|c| *c <= 255));
    }

    // Sort the pixels by what the ray through their middle meets.
    let mut on_ball: Vec<u32> = Vec::new();
    let mut on_sky: Vec<u32> = Vec::new();
    for j in 0..90u32 {
        for i in 0..160u32 {
            let pixel = image.pixels()[(j * 160 + i) as usize];
            let light = pixel.r as u32 + pixel.g as u32 + pixel.b as u32;
            match intersect(&world, &get_ray(&camera, i, j, [0.0, 0.0, 0.0])) {
                Some(0) => on_ball.push(light),
                Some(_) => {}
                None => on_sky.push(light),
            }
        }
    }
    assert!(on_ball.len() > 500);
    assert!(on_sky.len() > 500);
    let mean = |v: &Vec<u32>| v.iter().sum::<u32>() as f64 / v.len() as f64;
    assert!(mean(&on_ball) + 300.0 < mean(&on_sky));
}

#[test]
fn same_seed_gives_the_same_image() {
    let camera = camera(16.0 / 9.0, 64, 90, [0.0, 0.0, 0.0], [0.0, 0.0, -1.0]);
    let world = ball_on_the_ground();
    let renderer = Renderer::new(3, 8);
    let first = render(&renderer, &world, &camera, &mut seeded(42)).write_ppm();
    let second = render(&renderer, &world, &camera, &mut seeded(42)).write_ppm();
    assert_eq!(first, second);
    let other = render(&renderer, &world, &camera, &mut seeded(43)).write_ppm();
    assert_ne!(first, other);
    assert_eq!(first.lines().count(), other.lines().count());
}

#[test]
fn more_bounces_bring_light_to_the_ball() {
    let camera = camera(1.0, 40, 90, [0.0, 0.0, 0.0], [0.0, 0.0, -1.0]);
    let world = ball_on_the_ground();
    let cut_off = render(&Renderer::new(4, 1), &world, &camera, &mut seeded(5));
    let lit = render(&Renderer::new(4, 20), &world, &camera, &mut seeded(5));
    let middle = 20 * 40 + 20;
    assert_eq!(cut_off.pixels()[middle], Pixel::new(0, 0, 0));
    assert!(lit.pixels()[middle].r > 0);
}

#[test]
fn random_unit_vector_is_unit() {
    let mut sampler = seeded(1337);
    let ten_unit_vectors: Vec<Vec3> = (0..10).map(|_| sampler.unit_vector()).collect();
    for unit in &ten_unit_vectors {
        assert!((length(*unit) - 1.0).abs() < 1e-6)
    }
}

#[test]
fn unit_vectors_have_length_one_and_point_everywhere() {
    let mut sampler = seeded(2024);
    let mut octants = [0u32; 8];
    for _ in 0..10000 {
        let unit = sampler.unit_vector();
        assert!((length(unit) - 1.0).abs() < 1e-6);
        assert!(unit != [0.0, 0.0, 0.0]);
        let octant = (unit[0] < 0.0) as usize * 4 + (unit[1] < 0.0) as usize * 2
            + (unit[2] < 0.0) as usize;
        octants[octant] += 1;
    }
    assert!(octants.iter().all(|n| *n > 1000));
}

#[test]
fn jitter_stays_in_the_pixel() {
    let mut sampler = seeded(99);
    for _ in 0..1000 {
        let offset = sampler.in_square();
        assert!(-0.5 <= offset[0] && offset[0] < 0.5);
        assert!(-0.5 <= offset[1] && offset[1] < 0.5);
        assert_eq!(offset[2], 0.0);
    }
}

#[test]
fn normals_are_shown_where_the_material_shows_them() {
    let mut world: Scene = World::new();
    let debug = world.add_material(Material::NormalVisualizer(NormalVisualizer));
    world.add(Sphere { center: [0.0, 0.0, -2.0], radius: 1.0, material: debug });
    let mut sampler = seeded(3);
    let before = sampler.next_f64();
    let mut sampler = seeded(3);
    // Straight at the ball: the normal at the hit looks back at the camera.
    let (sampler, color) =
        ray_color(ray([0.0, 0.0, 0.0], [0.0, 0.0, -1.0]), 5, &world, &mut sampler);
    assert_eq!(color, [0.5, 0.5, 1.0]);
    // Nothing was drawn on the way.
    assert_eq!(sampler.next_f64(), before);
}

#[test]
fn mirror_that_is_looked_at_shows_the_sky_behind_the_camera() {
    let mut world: Scene = World::new();
    let mirror = world.add_material(Material::Metal(Metal::new([0.5, 1.0, 0.25], 0.0)));
    world.add(Sphere { center: [0.0, 0.0, -2.0], radius: 1.0, material: mirror });
    let towards = ray([0.0, 0.0, 0.0], [0.0, 0.0, -1.0]);
    let (_, color) = ray_color(towards, 5, &world, &mut seeded(3));
    let behind = background(&ray([0.0, 0.0, -1.0], [0.0, 0.0, 1.0]));
    assert_eq!(color, times([0.5, 1.0, 0.25], behind));
    let (_, cut_off) = ray_color(towards, 1, &world, &mut seeded(3));
    assert_eq!(cut_off, [0.0, 0.0, 0.0]);
    let (_, none) = ray_color(towards, 0, &world, &mut seeded(3));
    assert_eq!(none, [0.0, 0.0, 0.0]);
}

#[test]
fn dummy_swallows_the_light() {
    let mut world: Scene = World::new();
    let dummy = world.add_material(Material::Dummy(DummyMaterial));
    world.add(Sphere { center: [0.0, 0.0, -2.0], radius: 1.0, material: dummy });
    let (_, color) = ray_color(ray([0.0, 0.0, 0.0], [0.0, 0.0, -1.0]), 5, &world, &mut seeded(3));
    assert_eq!(color, [0.0, 0.0, 0.0]);
    let past = ray([0.0, 0.0, 0.0], [0.0, 1.0, 0.0]);
    let (_, sky) = ray_color(past, 5, &world, &mut seeded(3));
    assert_eq!(sky, background(&past));
}
