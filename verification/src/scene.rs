//! The scene: camera, light, object list, and the rendering engine.

use vstd::prelude::*;
use vstd::string::StringSliceAdditionalSpecFns;
use crate::color::{Color, ColorV, color_direct, color_scale, dec_bytes, ppm_triple, push_dec};
use crate::error::{Error, ErrorKind, plain_err};
use crate::fixed::{Fixed, fx_abs, fx_neg, fx_div, sat64};
use crate::objects::{Object, ObjectV, object_hit, object_normal, object_color, objects_view};
use crate::sdl::{NodeV, get_path_spec};
use crate::sdl::parse::{parse, spec_parse};
use crate::sdl::into_scene::{
    node_to_real,
    node_to_u32,
    node_to_vec3,
    node_to_color,
    node_to_objects,
};
use crate::vec3::{
    V3,
    Vec3,
    v3_add,
    v3_sub,
    v3_scale,
    v3_dot,
    v3_norm,
    v3_normalize,
};

verus! {

/// The mathematical model of a ray.
pub ghost struct RayV {
    pub start: V3,
    pub direction: V3,
}

/// A ray: an origin point and a direction vector (not required to be
/// unit length).
#[derive(Debug, Clone, Copy)]
pub struct Ray {
    pub start: Vec3,
    pub direction: Vec3,
}

impl View for Ray {
    type V = RayV;

    open spec fn view(&self) -> RayV {
        RayV { start: self.start@, direction: self.direction@ }
    }
}

/// The mathematical model of a scene.
pub ghost struct SceneV {
    pub objects: Seq<ObjectV>,
    pub camera_position: V3,
    pub camera_up: V3,
    pub camera_right: V3,
    pub focal_distance: int,
    pub screen_width: u32,
    pub screen_height: u32,
    pub light_source: V3,
    pub light_color: ColorV,
}

/// A fully validated scene, read-only once built.
pub struct Scene {
    pub objects: Vec<Object>,
    pub camera_position: Vec3,
    pub camera_up: Vec3,
    pub camera_right: Vec3,
    pub focal_distance: Fixed,
    pub screen_width: u32,
    pub screen_height: u32,
    pub light_source: Vec3,
    pub light_color: Color,
}

impl View for Scene {
    type V = SceneV;

    open spec fn view(&self) -> SceneV {
        SceneV {
            objects: objects_view(self.objects@),
            camera_position: self.camera_position@,
            camera_up: self.camera_up@,
            camera_right: self.camera_right@,
            focal_distance: self.focal_distance@,
            screen_width: self.screen_width,
            screen_height: self.screen_height,
            light_source: self.light_source@,
            light_color: self.light_color@,
        }
    }
}

/// The fixed world "forward" axis: +Z. The camera cannot be rotated
/// away from it; the up and right vectors are carried but unused.
pub open spec fn forward_axis() -> V3 {
    V3 { x: 0, y: 0, z: 65536 }
}

/// Offset by half a pixel so the grid's top-left sample lands on the
/// integer pixel center convention.
pub open spec fn half_pixel_adjust() -> V3 {
    V3 { x: 32768, y: -32768, z: 0 }
}

/// How far along the ray a point lies: the distance from `start` to `p`.
pub open spec fn dist_from(start: V3, p: V3) -> int {
    v3_norm(v3_sub(p, start))
}

/// The world point of the screen's top-left pixel: move from the camera
/// along the forward axis by the focal distance, adjust by half a pixel,
/// and step back by half the screen size.
pub open spec fn top_left_spec(s: SceneV) -> V3 {
    let center = v3_add(
        v3_add(s.camera_position, v3_scale(forward_axis(), s.focal_distance)),
        half_pixel_adjust(),
    );
    let dx = fx_neg(fx_div(sat64((s.screen_width as int) * 65536), 131072));
    let dy = fx_div(sat64((s.screen_height as int) * 65536), 131072);
    v3_add(center, V3 { x: dx, y: dy, z: 0 })
}

/// The primary ray of pixel `(x, y)`: from the camera position toward
/// the sampled world point, `x` increasing rightward, `y` downward.
pub open spec fn pixel_ray(s: SceneV, x: u32, y: u32) -> RayV {
    let p = v3_add(
        top_left_spec(s),
        V3 { x: sat64((x as int) * 65536), y: fx_neg(sat64((y as int) * 65536)), z: 0 },
    );
    RayV { start: s.camera_position, direction: v3_sub(p, s.camera_position) }
}

/// One step of the nearest-hit search over `objects[i..]`: keep a hit
/// within `max_dist` that is strictly closer than the best so far, so
/// the first object encountered wins ties.
pub open spec fn cast_from(
    objects: Seq<ObjectV>,
    ray: RayV,
    max_dist: int,
    i: int,
    best: Option<(ObjectV, V3)>,
) -> Option<(ObjectV, V3)>
    decreases objects.len() - i,
{
    if i < 0 || i >= objects.len() {
        best
    } else {
        let next = match object_hit(objects[i], ray) {
            Some(p) => if dist_from(ray.start, p) > max_dist {
                best
            } else {
                match best {
                    Some((_, curr)) => if dist_from(ray.start, p) < dist_from(ray.start, curr) {
                        Some((objects[i], p))
                    } else {
                        best
                    },
                    None => Some((objects[i], p)),
                }
            },
            None => best,
        };
        cast_from(objects, ray, max_dist, i + 1, next)
    }
}

/// The nearest hit among all objects at distance at most `max_dist`.
pub open spec fn cast_spec(objects: Seq<ObjectV>, ray: RayV, max_dist: int) -> Option<
    (ObjectV, V3),
> {
    cast_from(objects, ray, max_dist, 0, None)
}

pub open spec fn opt_hit(r: Option<(Object, Vec3)>) -> Option<(ObjectV, V3)> {
    match r {
        Some((o, p)) => Some((o@, p@)),
        None => None,
    }
}

/// Raw fixed-point offset of the shadow ray's start along the light
/// direction, near 0.1 world units, to avoid re-hitting the surface it
/// leaves.
pub const SHADOW_EPSILON_RAW: i64 = 6554;

/// The color of pixel `(x, y)`: black when the primary ray misses or
/// the hit point is shadowed, else the light and object colors'
/// elementwise product scaled by the diffuse term. A light source that
/// coincides with the hit point leaves the pixel black, there being no
/// direction to it.
pub open spec fn pixel_color_spec(s: SceneV, x: u32, y: u32) -> ColorV {
    let ray = pixel_ray(s, x, y);
    match cast_spec(s.objects, ray, i64::MAX as int) {
        None => ColorV { r: 0, g: 0, b: 0 },
        Some((obj, p)) => {
            let path = v3_sub(s.light_source, p);
            if v3_norm(path) == 0 {
                ColorV { r: 0, g: 0, b: 0 }
            } else {
                let shadow = RayV {
                    start: v3_add(p, v3_scale(v3_normalize(path), SHADOW_EPSILON_RAW as int)),
                    direction: path,
                };
                let max_dist = v3_norm(path);
                if cast_spec(s.objects, shadow, max_dist) is Some {
                    ColorV { r: 0, g: 0, b: 0 }
                } else {
                    let brightness = fx_abs(v3_dot(v3_normalize(path), object_normal(obj, p)));
                    color_scale(color_direct(s.light_color, object_color(obj)), brightness)
                }
            }
        },
    }
}

/// An occluded surface point receives no light: whenever the shadow
/// ray from a pixel's hit point toward the light source strikes any
/// object within the light's distance, that pixel renders black.
pub proof fn lemma_occluded_pixel_is_black(s: SceneV, x: u32, y: u32)
    requires
        ({
            let ray = pixel_ray(s, x, y);
            match cast_spec(s.objects, ray, i64::MAX as int) {
                None => false,
                Some((obj, p)) => {
                    let path = v3_sub(s.light_source, p);
                    &&& v3_norm(path) != 0
                    &&& cast_spec(
                        s.objects,
                        RayV {
                            start: v3_add(
                                p,
                                v3_scale(v3_normalize(path), SHADOW_EPSILON_RAW as int),
                            ),
                            direction: path,
                        },
                        v3_norm(path),
                    ) is Some
                },
            }
        }),
    ensures
        pixel_color_spec(s, x, y) == (ColorV { r: 0, g: 0, b: 0 }),
{
}

/// The models of a sequence of pixels.
pub open spec fn colors_view(cs: Seq<Color>) -> Seq<ColorV> {
    Seq::new(cs.len(), |i: int| cs[i]@)
}

/// The pixels of a scene in row-major order, top row first.
pub open spec fn pixel_seq(s: SceneV) -> Seq<ColorV> {
    Seq::new(
        ((s.screen_width as int) * (s.screen_height as int)) as nat,
        |k: int|
            pixel_color_spec(
                s,
                (k % (s.screen_width as int)) as u32,
                (k / (s.screen_width as int)) as u32,
            ),
    )
}

/// The PPM header: a `P3` line, a line with the dimensions and the
/// maximum channel value, and a blank line.
pub open spec fn ppm_header(w: u32, h: u32) -> Seq<u8> {
    seq![80u8, 51u8, 10u8] + dec_bytes(w as nat) + seq![32u8] + dec_bytes(h as nat) + seq![
        32u8,
        50u8,
        53u8,
        53u8,
        10u8,
        10u8,
    ]
}

/// The PPM body: one `R G B` line per pixel.
pub open spec fn ppm_pixels(pixels: Seq<ColorV>) -> Seq<u8>
    decreases pixels.len(),
{
    if pixels.len() == 0 {
        Seq::empty()
    } else {
        ppm_pixels(pixels.drop_last()) + ppm_triple(pixels.last()) + seq![10u8]
    }
}

/// Serialize a raster of `w * h` pixels as a PPM text image.
pub fn ppm_serialize(w: u32, h: u32, pixels: &Vec<Color>) -> (out: Vec<u8>)
    requires
        pixels@.len() == (w as int) * (h as int),
    ensures
        out@ == ppm_header(w, h) + ppm_pixels(colors_view(pixels@)),
{
    let mut out: Vec<u8> = Vec::new();
    out.push(80);
    out.push(51);
    out.push(10);
    push_dec(w, &mut out);
    out.push(32);
    push_dec(h, &mut out);
    out.push(32);
    out.push(50);
    out.push(53);
    out.push(53);
    out.push(10);
    out.push(10);
    proof {
        assert(out@ =~= ppm_header(w, h));
        assert(colors_view(pixels@.take(0)) =~= Seq::<ColorV>::empty());
        assert(out@ =~= ppm_header(w, h) + ppm_pixels(colors_view(pixels@.take(0))));
    }
    let n = pixels.len();
    let mut i: usize = 0;
    while i < n
        invariant
            n == pixels@.len(),
            0 <= i <= n,
            out@ == ppm_header(w, h) + ppm_pixels(colors_view(pixels@.take(i as int))),
        decreases n - i,
    {
        let line = pixels[i].ppm().bytes();
        let ghost prev = out@;
        let mut line_vec = line;
        out.append(&mut line_vec);
        out.push(10);
        proof {
            let cv_next = colors_view(pixels@.take(i as int + 1));
            assert(cv_next.drop_last() =~= colors_view(pixels@.take(i as int)));
            assert(cv_next.last() == pixels@[i as int]@);
            assert(out@ =~= ppm_header(w, h) + ppm_pixels(cv_next));
        }
        i = i + 1;
    }
    proof {
        assert(pixels@.take(n as int) =~= pixels@);
    }
    out
}

pub open spec fn missing(seg: int) -> Error {
    plain_err(ErrorKind::MissingChild { segment: seg as usize })
}

/// Building the typed scene from the parsed root node: each required
/// path is located and converted in turn, and the first failure aborts
/// the construction.
pub open spec fn build_scene(root: NodeV) -> Result<SceneV, Error> {
    match get_path_spec(root, "camera position".spec_bytes()) {
        Err(seg) => Err(missing(seg)),
        Ok(n1) => match node_to_vec3(n1) {
            Err(e) => Err(e),
            Ok(camera_position) => match get_path_spec(root, "camera up".spec_bytes()) {
                Err(seg) => Err(missing(seg)),
                Ok(n2) => match node_to_vec3(n2) {
                    Err(e) => Err(e),
                    Ok(camera_up) => match get_path_spec(root, "camera right".spec_bytes()) {
                        Err(seg) => Err(missing(seg)),
                        Ok(n3) => match node_to_vec3(n3) {
                            Err(e) => Err(e),
                            Ok(camera_right) => match get_path_spec(
                                root,
                                "focal-distance".spec_bytes(),
                            ) {
                                Err(seg) => Err(missing(seg)),
                                Ok(n4) => match node_to_real(n4) {
                                    Err(e) => Err(e),
                                    Ok(focal_distance) => match get_path_spec(
                                        root,
                                        "screen width".spec_bytes(),
                                    ) {
                                        Err(seg) => Err(missing(seg)),
                                        Ok(n5) => match node_to_u32(n5) {
                                            Err(e) => Err(e),
                                            Ok(screen_width) => match get_path_spec(
                                                root,
                                                "screen height".spec_bytes(),
                                            ) {
                                                Err(seg) => Err(missing(seg)),
                                                Ok(n6) => match node_to_u32(n6) {
                                                    Err(e) => Err(e),
                                                    Ok(screen_height) => match get_path_spec(
                                                        root,
                                                        "lights light position".spec_bytes(),
                                                    ) {
                                                        Err(seg) => Err(missing(seg)),
                                                        Ok(n7) => match node_to_vec3(n7) {
                                                            Err(e) => Err(e),
                                                            Ok(light_source) => match get_path_spec(
                                                                root,
                                                                "lights light color".spec_bytes(),
                                                            ) {
                                                                Err(seg) => Err(missing(seg)),
                                                                Ok(n8) => match node_to_color(n8) {
                                                                    Err(e) => Err(e),
                                                                    Ok(
                                                                        light_color,
                                                                    ) => match get_path_spec(
                                                                        root,
                                                                        "objects".spec_bytes(),
                                                                    ) {
                                                                        Err(seg) => Err(
                                                                            missing(seg),
                                                                        ),
                                                                        Ok(n9) => match node_to_objects(
                                                                            n9,
                                                                        ) {
                                                                            Err(e) => Err(e),
                                                                            Ok(objects) => Ok(
                                                                                SceneV {
                                                                                    objects,
                                                                                    camera_position,
                                                                                    camera_up,
                                                                                    camera_right,
                                                                                    focal_distance,
                                                                                    screen_width,
                                                                                    screen_height,
                                                                                    light_source,
                                                                                    light_color,
                                                                                },
                                                                            ),
                                                                        },
                                                                    },
                                                                },
                                                            },
                                                        },
                                                    },
                                                },
                                            },
                                        },
                                    },
                                },
                            },
                        },
                    },
                },
            },
        },
    }
}

/// A scene that builds holds only spheres, each with a positive
/// radius: the object-list conversion admits no other object.
pub proof fn lemma_built_scene_radii_positive(root: NodeV)
    requires
        build_scene(root) is Ok,
    ensures
        build_scene(root) matches Ok(s) && forall|j: int|
            0 <= j < s.objects.len() ==> (#[trigger] s.objects[j] matches ObjectV::Sphere(sp)
                && sp.radius > 0),
{
    match get_path_spec(root, "objects".spec_bytes()) {
        Err(_) => {},
        Ok(n9) => {
            if node_to_objects(n9) is Ok {
                crate::sdl::into_scene::lemma_converted_objects_radius_positive(n9.children, 0);
            }
        },
    }
}

impl Scene {
    /// Parse a scene description text and build the typed scene from
    /// it: camera, focal distance, screen size, light, and the object
    /// list, every field validated.
    pub fn from_sdl(text: &str) -> (r: Result<Scene, Error>)
        ensures
            match (r, spec_parse(text.spec_bytes())) {
                (Err(e), Err(pe)) => e == pe,
                (Err(e), Ok(root)) => build_scene(root) == Err::<SceneV, Error>(e),
                (Ok(s), Ok(root)) => build_scene(root) == Ok::<SceneV, Error>(s@),
                (Ok(_), Err(_)) => false,
            },
    {
        let tree = match parse(text) {
            Ok(t) => t,
            Err(e) => {
                return Err(e);
            },
        };
        let camera_position = match match tree.get_path("camera position") {
            Ok(n) => n.to_vec3(),
            Err(e) => Err(e),
        } {
            Ok(v) => v,
            Err(e) => {
                return Err(e);
            },
        };
        let camera_up = match match tree.get_path("camera up") {
            Ok(n) => n.to_vec3(),
            Err(e) => Err(e),
        } {
            Ok(v) => v,
            Err(e) => {
                return Err(e);
            },
        };
        let camera_right = match match tree.get_path("camera right") {
            Ok(n) => n.to_vec3(),
            Err(e) => Err(e),
        } {
            Ok(v) => v,
            Err(e) => {
                return Err(e);
            },
        };
        let focal_distance = match match tree.get_path("focal-distance") {
            Ok(n) => n.to_real(),
            Err(e) => Err(e),
        } {
            Ok(v) => v,
            Err(e) => {
                return Err(e);
            },
        };
        let screen_width = match match tree.get_path("screen width") {
            Ok(n) => n.to_u32(),
            Err(e) => Err(e),
        } {
            Ok(v) => v,
            Err(e) => {
                return Err(e);
            },
        };
        let screen_height = match match tree.get_path("screen height") {
            Ok(n) => n.to_u32(),
            Err(e) => Err(e),
        } {
            Ok(v) => v,
            Err(e) => {
                return Err(e);
            },
        };
        let light_source = match match tree.get_path("lights light position") {
            Ok(n) => n.to_vec3(),
            Err(e) => Err(e),
        } {
            Ok(v) => v,
            Err(e) => {
                return Err(e);
            },
        };
        let light_color = match match tree.get_path("lights light color") {
            Ok(n) => n.to_color(),
            Err(e) => Err(e),
        } {
            Ok(v) => v,
            Err(e) => {
                return Err(e);
            },
        };
        let objects = match match tree.get_path("objects") {
            Ok(n) => n.to_objects(),
            Err(e) => Err(e),
        } {
            Ok(v) => v,
            Err(e) => {
                return Err(e);
            },
        };
        Ok(
            Scene {
                objects,
                camera_position,
                camera_up,
                camera_right,
                focal_distance,
                screen_width,
                screen_height,
                light_source,
                light_color,
            },
        )
    }

    fn top_left_pixel(&self) -> (r: Vec3)
        ensures
            r@ == top_left_spec(self@),
    {
        let adjust = Vec3::new(Fixed::from_raw(32768), Fixed::from_raw(-32768), Fixed::zero());
        let fwd = Vec3::new(Fixed::zero(), Fixed::zero(), Fixed::from_int(1));
        let center = self.camera_position.add(fwd.scale(self.focal_distance)).add(adjust);
        let two = Fixed::from_int(2);
        let dx = Fixed::from_int(self.screen_width as i64).neg().div(two);
        let dy = Fixed::from_int(self.screen_height as i64).div(two);
        proof {
            assert(v3_scale(forward_axis(), self@.focal_distance) == v3_scale(
                V3 { x: 0, y: 0, z: 65536 },
                self.focal_distance@,
            ));
        }
        center.add(Vec3::new(dx, dy, Fixed::zero()))
    }

    /// The nearest hit among this scene's objects, at distance at most
    /// `max_dist` from the ray's start; ties go to the earlier object.
    fn cast(&self, ray: Ray, max_dist: Fixed) -> (r: Option<(Object, Vec3)>)
        ensures
            opt_hit(r) == cast_spec(self@.objects, ray@, max_dist@),
    {
        let mut closest_hit: Option<(Object, Vec3)> = None;
        let n = self.objects.len();
        let mut i: usize = 0;
        while i < n
            invariant
                n == self.objects.len(),
                0 <= i <= n,
                cast_from(self@.objects, ray@, max_dist@, i as int, opt_hit(closest_hit))
                    == cast_spec(self@.objects, ray@, max_dist@),
            decreases n - i,
        {
            let obj = self.objects[i];
            if let Some(p) = obj.hit_test(ray) {
                let d = p.sub(ray.start).norm();
                if d.le(max_dist) {
                    let is_closer = match &closest_hit {
                        Some((_, curr)) => {
                            let dc = curr.sub(ray.start).norm();
                            d.lt(dc)
                        },
                        None => true,
                    };
                    if is_closer {
                        closest_hit = Some((obj, p));
                    }
                }
            }
            i = i + 1;
        }
        closest_hit
    }

    /// The shaded color of pixel `(x, y)`.
    pub fn pixel_color(&self, x: u32, y: u32) -> (c: Color)
        ensures
            c@ == pixel_color_spec(self@, x, y),
    {
        let top_left = self.top_left_pixel();
        let p = top_left.add(
            Vec3::new(
                Fixed::from_int(x as i64),
                Fixed::from_int(y as i64).neg(),
                Fixed::zero(),
            ),
        );
        let start = self.camera_position;
        let direction = p.sub(start);
        let ray = Ray { start, direction };
        match self.cast(ray, Fixed::from_raw(i64::MAX)) {
            None => Color::black(),
            Some((obj, hit)) => {
                let path = self.light_source.sub(hit);
                if path.norm().is_zero() {
                    return Color::black();
                }
                let shadow_ray = Ray {
                    start: hit.add(path.normalize().scale(Fixed::from_raw(SHADOW_EPSILON_RAW))),
                    direction: path,
                };
                let max_dist = path.norm();
                let intercepted = self.cast(shadow_ray, max_dist).is_some();
                if intercepted {
                    Color::black()
                } else {
                    let brightness = path.normalize().dot_product(obj.normal(hit)).abs();
                    self.light_color.direct_product(obj.color()).scale(brightness)
                }
            },
        }
    }

    /// Render every pixel in row-major order, top row first.
    pub fn render(&self) -> (pixels: Vec<Color>)
        ensures
            pixels@.len() == (self@.screen_width as int) * (self@.screen_height as int),
            forall|y: u32, x: u32|
                y < self@.screen_height && x < self@.screen_width ==> #[trigger] pixels@[
                    (y as int) * (self@.screen_width as int) + (x as int)
                ]@ == pixel_color_spec(self@, x, y),
    {
        let mut pixels: Vec<Color> = Vec::new();
        let w = self.screen_width;
        let h = self.screen_height;
        let mut y: u32 = 0;
        while y < h
            invariant
                w == self@.screen_width,
                h == self@.screen_height,
                0 <= y <= h,
                pixels@.len() == (y as int) * (w as int),
                forall|yy: u32, xx: u32|
                    yy < y && xx < w ==> #[trigger] pixels@[
                        (yy as int) * (w as int) + (xx as int)
                    ]@ == pixel_color_spec(self@, xx, yy),
            decreases h - y,
        {
            let mut x: u32 = 0;
            while x < w
                invariant
                    w == self@.screen_width,
                    h == self@.screen_height,
                    0 <= y < h,
                    0 <= x <= w,
                    pixels@.len() == (y as int) * (w as int) + (x as int),
                    forall|yy: u32, xx: u32|
                        yy < y && xx < w ==> #[trigger] pixels@[
                            (yy as int) * (w as int) + (xx as int)
                        ]@ == pixel_color_spec(self@, xx, yy),
                    forall|xx: u32|
                        xx < x ==> #[trigger] pixels@[
                            (y as int) * (w as int) + (xx as int)
                        ]@ == pixel_color_spec(self@, xx, y),
                decreases w - x,
            {
                let c = self.pixel_color(x, y);
                proof {
                    assert forall|yy: u32, xx: u32| yy < y && xx < w implies #[trigger] (
                    (yy as int) * (w as int) + (xx as int)) < (y as int) * (w as int) by {
                        assert((yy as int) * (w as int) + (xx as int) < (y as int) * (w as int))
                            by (nonlinear_arith)
                            requires
                                yy < y,
                                xx < w,
                        ;
                    }
                }
                pixels.push(c);
                x = x + 1;
            }
            proof {
                assert(((y as int) + 1) * (w as int) == (y as int) * (w as int) + (w as int))
                    by (nonlinear_arith);
            }
            y = y + 1;
        }
        proof {
            assert((h as int) * (w as int) == (w as int) * (h as int)) by (nonlinear_arith);
        }
        pixels
    }

    /// Render the scene and serialize the raster as a PPM text image.
    pub fn render_ppm(&self) -> (out: Vec<u8>)
        ensures
            out@ == ppm_header(self@.screen_width, self@.screen_height) + ppm_pixels(
                pixel_seq(self@),
            ),
    {
        let pixels = self.render();
        let w = self.screen_width;
        let h = self.screen_height;
        proof {
            let s = self@;
            let wi = w as int;
            let hi = h as int;
            assert forall|k: int| 0 <= k < pixels@.len() implies #[trigger] colors_view(pixels@)[k]
                == pixel_seq(s)[k] by {
                assert(wi > 0 && hi > 0) by (nonlinear_arith)
                    requires
                        wi * hi > k >= 0,
                        wi >= 0,
                        hi >= 0,
                ;
                vstd::arithmetic::div_mod::lemma_fundamental_div_mod(k, wi);
                vstd::arithmetic::div_mod::lemma_mod_bound(k, wi);
                vstd::arithmetic::div_mod::lemma_multiply_divide_lt(k, wi, hi);
                let x = k % wi;
                let y = k / wi;
                assert(k == wi * y + x);
                assert(0 <= x < wi);
                assert(0 <= y < hi);
                assert(wi * y == y * wi) by (nonlinear_arith);
                assert(pixels@[y * wi + x]@ == pixel_color_spec(s, x as u32, y as u32));
            }
            assert(colors_view(pixels@) =~= pixel_seq(s));
        }
        ppm_serialize(w, h, &pixels)
    }
}

} // verus!
