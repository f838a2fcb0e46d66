use raytracer::error::{Error, ErrorClass, ErrorKind, Target};
use raytracer::fixed::Fixed;
use raytracer::sdl::parse::{is_valid_name, parse};

#[test]
fn single_node_with_values() {
    let node = parse("a 1 2 3").unwrap();
    assert_eq!(node.name, b"a".to_vec());
    assert_eq!(node.values.len(), 3);
    assert_eq!(node.values[0], Fixed::from_int(1));
    assert_eq!(node.values[1], Fixed::from_int(2));
    assert_eq!(node.values[2], Fixed::from_int(3));
    assert_eq!(node.children.len(), 0);
}

#[test]
fn nested_node() {
    let node = parse("x {\n y 1\n}").unwrap();
    assert_eq!(node.name, b"x".to_vec());
    assert_eq!(node.values.len(), 0);
    assert_eq!(node.children.len(), 1);
    let child = &node.children[0];
    assert_eq!(child.name, b"y".to_vec());
    assert_eq!(child.values.len(), 1);
    assert_eq!(child.values[0], Fixed::from_int(1));
    assert_eq!(child.children.len(), 0);
}

#[test]
fn parse_eyeball_test() {
    let s = "
    // this is a comment
    scene { // this is an end of line comment
        camera {
            position 0 0 -20
            up 0 1 0
            right 1 0 0
        }
        focal-distance 10
        screen {
            width 64
            height 48
        }
        lights {
            light {
                position -10 10 -20
                color 255 200 255
            }
        }
        objects {
            sphere {
                color 0 255 0
                center -5 2.5 -2
                radius 10
            }
            sphere {
                color 0 0 255
                center 5 -2.5 5
                radius 15
            }
        }
    }
        ";
    let node = parse(s).unwrap();
    assert_eq!(node.name, b"scene".to_vec());
    assert_eq!(node.children.len(), 5);
}

#[test]
fn sdl_eyeball_test() {
    let s = "
    scene {
        camera {
            position 0 0 -20
            up 0 1 0
            right 1 0 0
        }
        focal-distance 10
        screen {
            width 64
            height 48
        }
        lights {
            light {
                position -10 10 -20
                color 255 200 255
            }
        }
        objects {
            sphere {
                color 0 255 0
                center -5 2.5 -2
                radius 10
            }
            sphere {
                color 0 0 255
                center 5 -2.5 5
                radius 15
            }
        }
    }
        ";
    let node = parse(s).unwrap();
    assert_eq!(node.name, b"scene".to_vec());
}

#[test]
fn fractional_and_signed_numbers() {
    let node = parse("v -2.5 +3 0.25").unwrap();
    assert_eq!(node.values[0], Fixed::from_raw(-163840));
    assert_eq!(node.values[1], Fixed::from_int(3));
    assert_eq!(node.values[2], Fixed::from_raw(16384));
}

#[test]
fn numbers_with_bare_dot_forms() {
    let node = parse("v 1. .5").unwrap();
    assert_eq!(node.values[0], Fixed::from_int(1));
    assert_eq!(node.values[1], Fixed::from_raw(32768));
}

#[test]
fn comment_strips_to_end_of_line() {
    let node = parse("a 1 // b 2 }").unwrap();
    assert_eq!(node.name, b"a".to_vec());
    assert_eq!(node.values.len(), 1);
}

#[test]
fn blank_lines_are_skipped() {
    let node = parse("\n\n  a 7  \n\n").unwrap();
    assert_eq!(node.name, b"a".to_vec());
    assert_eq!(node.values[0], Fixed::from_int(7));
}

#[test]
fn name_starting_with_digit_is_rejected() {
    let e = parse("1abc 2").unwrap_err();
    assert_eq!(e.kind, ErrorKind::InvalidName);
    assert_eq!(e.class(), ErrorClass::Syntax);
}

#[test]
fn name_with_bad_character_is_rejected() {
    let e = parse("a$b 2").unwrap_err();
    assert_eq!(e.kind, ErrorKind::InvalidName);
}

#[test]
fn bad_number_token_is_rejected() {
    let e = parse("a 1 x 3").unwrap_err();
    assert_eq!(e.kind, ErrorKind::InvalidNumber);
    assert_eq!(e.class(), ErrorClass::Syntax);
}

#[test]
fn too_many_digits_is_rejected() {
    let e = parse("a 1234567890123").unwrap_err();
    assert_eq!(e.kind, ErrorKind::InvalidNumber);
}

#[test]
fn unmatched_close_is_rejected() {
    let e = parse("}").unwrap_err();
    assert_eq!(e.kind, ErrorKind::UnmatchedClose);
}

#[test]
fn unclosed_block_is_rejected() {
    let e = parse("a {").unwrap_err();
    assert_eq!(e.kind, ErrorKind::UnclosedBlocks { open: 1 });
}

#[test]
fn two_top_level_nodes_are_rejected() {
    let e = parse("a 1\nb 2").unwrap_err();
    assert_eq!(e.kind, ErrorKind::RootCount { found: 2 });
}

#[test]
fn empty_document_is_rejected() {
    let e = parse("").unwrap_err();
    assert_eq!(e.kind, ErrorKind::RootCount { found: 0 });
}

#[test]
fn valid_name_rules() {
    assert!(is_valid_name("abc"));
    assert!(is_valid_name("focal-distance"));
    assert!(is_valid_name("a_b2"));
    assert!(!is_valid_name("1abc"));
    assert!(!is_valid_name("a.b"));
    assert!(!is_valid_name("a{"));
}

#[test]
fn get_path_walks_children() {
    let node = parse("scene {\n camera {\n position 1 2 3\n}\n}").unwrap();
    let pos = node.get_path("camera position").unwrap();
    assert_eq!(pos.values.len(), 3);
    assert_eq!(pos.values[2], Fixed::from_int(3));
}

#[test]
fn get_path_takes_first_matching_child() {
    let node = parse("top {\n kid 1 {\n}\n kid 2\n}").unwrap();
    let kid = node.get_path("kid").unwrap();
    assert_eq!(kid.values[0], Fixed::from_int(1));
}

#[test]
fn get_path_missing_child_fails() {
    let node = parse("scene {\n camera {\n}\n}").unwrap();
    let e = node.get_path("camera position").unwrap_err();
    assert_eq!(e.kind, ErrorKind::MissingChild { segment: 1 });
    assert_eq!(e.class(), ErrorClass::Schema);
}

#[test]
fn to_real_shape_checks() {
    let node = parse("r 4.5").unwrap();
    assert_eq!(node.to_real().unwrap(), Fixed::from_raw(294912));
    let two = parse("r 1 2").unwrap();
    let e = two.to_real().unwrap_err();
    assert_eq!(
        e.kind,
        ErrorKind::WrongValueCount { target: Target::Real, expected: 1, found: 2 }
    );
    let kids = parse("r {\n x 1\n}").unwrap();
    let e = kids.to_real().unwrap_err();
    assert_eq!(
        e.kind,
        ErrorKind::UnexpectedChildren { target: Target::Real, found: 1 }
    );
}

#[test]
fn to_u32_accepts_whole_values_in_range() {
    let node = parse("w 640").unwrap();
    assert_eq!(node.to_u32().unwrap(), 640);
}

#[test]
fn to_u32_rejects_fractional_value() {
    let node = parse("w 1.5").unwrap();
    let e = node.to_u32().unwrap_err();
    assert_eq!(e.kind, ErrorKind::NotInteger { target: Target::Integer, index: 0 });
    assert_eq!(e.class(), ErrorClass::Range);
}

#[test]
fn to_u32_rejects_negative_value() {
    let node = parse("w -3").unwrap();
    let e = node.to_u32().unwrap_err();
    assert_eq!(e.kind, ErrorKind::OutOfRange { target: Target::Integer, index: 0 });
}

#[test]
fn to_color_checks_range_per_channel() {
    let node = parse("c 0 128 255").unwrap();
    let c = node.to_color().unwrap();
    assert_eq!(c, raytracer::color::Color::new(0, 128, 255));
    let over = parse("c 0 256 0").unwrap();
    let e = over.to_color().unwrap_err();
    assert_eq!(e.kind, ErrorKind::OutOfRange { target: Target::Color, index: 1 });
    let frac = parse("c 0 0 2.5").unwrap();
    let e = frac.to_color().unwrap_err();
    assert_eq!(e.kind, ErrorKind::NotInteger { target: Target::Color, index: 2 });
}

#[test]
fn to_vec3_needs_three_values() {
    let node = parse("v 1 2").unwrap();
    let e = node.to_vec3().unwrap_err();
    assert_eq!(
        e.kind,
        ErrorKind::WrongValueCount { target: Target::Vector, expected: 3, found: 2 }
    );
}

#[test]
fn to_objects_rejects_unknown_kind() {
    let node = parse("objects {\n cube {\n}\n}").unwrap();
    let e = node.to_objects().unwrap_err();
    assert_eq!(e.object, Some(0));
    assert_eq!(e.kind, ErrorKind::UnknownObject);
}

#[test]
fn to_objects_reports_child_index_of_failure() {
    let text = "objects {
        sphere {
            color 0 255 0
            center 0 0 0
            radius 10
        }
        sphere {
            color 0 0 0
            center 0 0 0
        }
    }";
    let node = parse(text).unwrap();
    let e = node.to_objects().unwrap_err();
    assert_eq!(e.object, Some(1));
    assert_eq!(e.kind, ErrorKind::MissingChild { segment: 0 });
}

#[test]
fn to_sphere_reads_fields() {
    let node = parse("sphere {\n color 10 20 30\n center 1 2 3\n radius 4\n}").unwrap();
    let s = node.to_sphere().unwrap();
    assert_eq!(s.color, raytracer::color::Color::new(10, 20, 30));
    assert_eq!(s.radius, Fixed::from_int(4));
    assert_eq!(s.center.x(), Fixed::from_int(1));
    assert_eq!(s.center.y(), Fixed::from_int(2));
    assert_eq!(s.center.z(), Fixed::from_int(3));
}

#[test]
fn to_sphere_rejects_nonpositive_radius() {
    let zero = parse("sphere {\n color 1 2 3\n center 0 0 0\n radius 0\n}").unwrap();
    let e = zero.to_sphere().unwrap_err();
    assert_eq!(e.kind, ErrorKind::OutOfRange { target: Target::Sphere, index: 0 });
    assert_eq!(e.class(), ErrorClass::Range);
    let neg = parse("sphere {\n color 1 2 3\n center 0 0 0\n radius -1\n}").unwrap();
    let e = neg.to_sphere().unwrap_err();
    assert_eq!(e.kind, ErrorKind::OutOfRange { target: Target::Sphere, index: 0 });
}

#[test]
fn objects_reject_negative_radius_sphere() {
    let text = "objects {
        sphere {
            color 0 255 0
            center 0 0 0
            radius 10
        }
        sphere {
            color 0 0 255
            center 1 1 1
            radius -2.5
        }
    }";
    let node = parse(text).unwrap();
    let e = node.to_objects().unwrap_err();
    assert_eq!(e.object, Some(1));
    assert_eq!(e.kind, ErrorKind::OutOfRange { target: Target::Sphere, index: 0 });
}

#[test]
fn error_carries_structured_data() {
    let e = Error::new(ErrorKind::RootCount { found: 3 });
    assert_eq!(e.object, None);
    assert_eq!(e.class(), ErrorClass::Syntax);
}
