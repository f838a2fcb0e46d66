use raytracer::color::Color;
use raytracer::fixed::Fixed;
use raytracer::objects::{Object, Sphere};
use raytracer::scene::Scene;
use raytracer::vec3::Vec3;

fn v(x: i64, y: i64, z: i64) -> Vec3 {
    Vec3::new(Fixed::from_int(x), Fixed::from_int(y), Fixed::from_int(z))
}

fn small_scene(objects: Vec<Object>) -> Scene {
    Scene {
        objects,
        camera_position: v(0, 0, -20),
        camera_up: v(0, 1, 0),
        camera_right: v(1, 0, 0),
        focal_distance: Fixed::from_int(10),
        screen_width: 3,
        screen_height: 3,
        light_source: v(-10, 10, -20),
        light_color: Color::white(),
    }
}

#[test]
fn lit_pixel_gets_diffuse_color() {
    let sphere = Object::Sphere(Sphere {
        color: Color::white(),
        center: Vec3::zero(),
        radius: Fixed::from_int(5),
    });
    let scene = small_scene(vec![sphere]);
    assert_eq!(scene.pixel_color(1, 1), Color::new(185, 185, 185));
}

#[test]
fn occluding_sphere_casts_full_shadow() {
    let sphere = Object::Sphere(Sphere {
        color: Color::white(),
        center: Vec3::zero(),
        radius: Fixed::from_int(5),
    });
    let occluder = Object::Sphere(Sphere {
        color: Color::new(10, 10, 10),
        center: v(-5, 5, -12),
        radius: Fixed::from_int(2),
    });
    let scene = small_scene(vec![sphere, occluder]);
    assert_eq!(scene.pixel_color(1, 1), Color::new(0, 0, 0));
}

#[test]
fn miss_renders_black() {
    let scene = small_scene(vec![]);
    assert_eq!(scene.pixel_color(0, 0), Color::new(0, 0, 0));
}

#[test]
fn closest_object_wins() {
    let near = Object::Sphere(Sphere {
        color: Color::new(200, 0, 0),
        center: v(0, 0, -10),
        radius: Fixed::from_int(2),
    });
    let far = Object::Sphere(Sphere {
        color: Color::new(0, 200, 0),
        center: Vec3::zero(),
        radius: Fixed::from_int(5),
    });
    let mut scene = small_scene(vec![near, far]);
    scene.light_source = v(0, 0, -40);
    assert_eq!(scene.pixel_color(1, 1), Color::new(200, 0, 0));
}

#[test]
fn end_to_end_scene_renders_centered_disc() {
    let text = "
    scene {
        camera {
            position 0 0 -20
            up 0 1 0
            right 1 0 0
        }
        focal-distance 10
        screen {
            width 64
            height 48
        }
        lights {
            light {
                position 0 0 -20
                color 255 255 255
            }
        }
        objects {
            sphere {
                color 255 0 0
                center 0 0 0
                radius 10
            }
        }
    }
    ";
    let scene = Scene::from_sdl(text).unwrap();
    assert_eq!(scene.screen_width, 64);
    assert_eq!(scene.screen_height, 48);
    let pixels = scene.render();
    assert_eq!(pixels.len(), 64 * 48);
    let black = Color::new(0, 0, 0);
    assert_eq!(pixels[32 + 24 * 64], Color::new(252, 0, 0));
    assert_eq!(pixels[0], black);
    assert_eq!(pixels[63], black);
    assert_eq!(pixels[64 * 48 - 1], black);
    let mut count: usize = 0;
    for y in 0..48usize {
        for x in 0..64usize {
            if pixels[x + y * 64] != black {
                count += 1;
                assert!(x >= 26 && x <= 37, "non-black pixel outside the disc");
                assert!(y >= 18 && y <= 29, "non-black pixel outside the disc");
            }
        }
    }
    assert_eq!(count, 112);
}

#[test]
fn shadowed_scene_pixel_is_black_end_to_end() {
    let text = "
    scene {
        camera {
            position 0 0 -20
            up 0 1 0
            right 1 0 0
        }
        focal-distance 10
        screen {
            width 3
            height 3
        }
        lights {
            light {
                position -10 10 -20
                color 255 255 255
            }
        }
        objects {
            sphere {
                color 255 255 255
                center 0 0 0
                radius 5
            }
            sphere {
                color 10 10 10
                center -5 5 -12
                radius 2
            }
        }
    }
    ";
    let scene = Scene::from_sdl(text).unwrap();
    let pixels = scene.render();
    assert_eq!(pixels[1 + 1 * 3], Color::new(0, 0, 0));
}

#[test]
fn ppm_output_layout() {
    let text = "
    scene {
        camera {
            position 0 0 -20
            up 0 1 0
            right 1 0 0
        }
        focal-distance 10
        screen {
            width 2
            height 1
        }
        lights {
            light {
                position 0 0 -20
                color 255 255 255
            }
        }
        objects {
        }
    }
    ";
    let scene = Scene::from_sdl(text).unwrap();
    let out = scene.render_ppm();
    assert_eq!(out, b"P3\n2 1 255\n\n0 0 0\n0 0 0\n".to_vec());
}

#[test]
fn from_sdl_reports_missing_field() {
    let text = "
    scene {
        camera {
            position 0 0 -20
            up 0 1 0
            right 1 0 0
        }
        screen {
            width 2
            height 1
        }
        lights {
            light {
                position 0 0 -20
                color 255 255 255
            }
        }
        objects {
        }
    }
    ";
    let e = match Scene::from_sdl(text) {
        Ok(_) => panic!("missing focal-distance must be rejected"),
        Err(e) => e,
    };
    assert_eq!(
        e.kind,
        raytracer::error::ErrorKind::MissingChild { segment: 0 }
    );
}
