//! Typed conversions from parse-tree nodes to scene values.
//!
//! Each conversion validates the node's shape (child count, value
//! count) before its values, and the first failure aborts the whole
//! scene construction.

use vstd::prelude::*;
use vstd::string::StringSliceAdditionalSpecFns;
use crate::color::{Color, ColorV};
use crate::error::{Error, ErrorKind, Target, plain_err};
use crate::fixed::Fixed;
use crate::objects::{Object, ObjectV, objects_view};
use crate::objects::sphere::{Sphere, SphereV};
use crate::sdl::{Node, NodeV, get_path_spec, lemma_children_view_index, lemma_children_view_len};
use crate::vec3::{V3, Vec3};

verus! {

broadcast use vstd::std_specs::vec::group_vec_axioms, vstd::seq::group_seq_axioms;

/// Conversion to a single real number: no children, exactly one value.
pub open spec fn node_to_real(n: NodeV) -> Result<int, Error> {
    if n.children.len() != 0 {
        Err(
            plain_err(
                ErrorKind::UnexpectedChildren {
                    target: Target::Real,
                    found: n.children.len() as usize,
                },
            ),
        )
    } else if n.values.len() != 1 {
        Err(
            plain_err(
                ErrorKind::WrongValueCount {
                    target: Target::Real,
                    expected: 1,
                    found: n.values.len() as usize,
                },
            ),
        )
    } else {
        Ok(n.values[0])
    }
}

/// Conversion to a non-negative integer: a single real value with no
/// fractional part, within the unsigned 32-bit range.
pub open spec fn node_to_u32(n: NodeV) -> Result<u32, Error> {
    if n.children.len() != 0 {
        Err(
            plain_err(
                ErrorKind::UnexpectedChildren {
                    target: Target::Integer,
                    found: n.children.len() as usize,
                },
            ),
        )
    } else if n.values.len() != 1 {
        Err(
            plain_err(
                ErrorKind::WrongValueCount {
                    target: Target::Integer,
                    expected: 1,
                    found: n.values.len() as usize,
                },
            ),
        )
    } else {
        let v = n.values[0];
        if v % 65536 != 0 {
            Err(plain_err(ErrorKind::NotInteger { target: Target::Integer, index: 0 }))
        } else if v < 0 || v > 0xFFFFFFFF * 65536 {
            Err(plain_err(ErrorKind::OutOfRange { target: Target::Integer, index: 0 }))
        } else {
            Ok((v / 65536) as u32)
        }
    }
}

/// Conversion to a vector: no children, exactly three values, mapped
/// positionally to x, y and z.
pub open spec fn node_to_vec3(n: NodeV) -> Result<V3, Error> {
    if n.children.len() != 0 {
        Err(
            plain_err(
                ErrorKind::UnexpectedChildren {
                    target: Target::Vector,
                    found: n.children.len() as usize,
                },
            ),
        )
    } else if n.values.len() != 3 {
        Err(
            plain_err(
                ErrorKind::WrongValueCount {
                    target: Target::Vector,
                    expected: 3,
                    found: n.values.len() as usize,
                },
            ),
        )
    } else {
        Ok(V3 { x: n.values[0], y: n.values[1], z: n.values[2] })
    }
}

/// Conversion to a color: no children, exactly three whole values,
/// each within `0..=255`.
pub open spec fn node_to_color(n: NodeV) -> Result<ColorV, Error> {
    if n.children.len() != 0 {
        Err(
            plain_err(
                ErrorKind::UnexpectedChildren {
                    target: Target::Color,
                    found: n.children.len() as usize,
                },
            ),
        )
    } else if n.values.len() != 3 {
        Err(
            plain_err(
                ErrorKind::WrongValueCount {
                    target: Target::Color,
                    expected: 3,
                    found: n.values.len() as usize,
                },
            ),
        )
    } else if n.values[0] % 65536 != 0 {
        Err(plain_err(ErrorKind::NotInteger { target: Target::Color, index: 0 }))
    } else if n.values[0] < 0 || n.values[0] > 255 * 65536 {
        Err(plain_err(ErrorKind::OutOfRange { target: Target::Color, index: 0 }))
    } else if n.values[1] % 65536 != 0 {
        Err(plain_err(ErrorKind::NotInteger { target: Target::Color, index: 1 }))
    } else if n.values[1] < 0 || n.values[1] > 255 * 65536 {
        Err(plain_err(ErrorKind::OutOfRange { target: Target::Color, index: 1 }))
    } else if n.values[2] % 65536 != 0 {
        Err(plain_err(ErrorKind::NotInteger { target: Target::Color, index: 2 }))
    } else if n.values[2] < 0 || n.values[2] > 255 * 65536 {
        Err(plain_err(ErrorKind::OutOfRange { target: Target::Color, index: 2 }))
    } else {
        Ok(
            ColorV {
                r: (n.values[0] / 65536) as u8,
                g: (n.values[1] / 65536) as u8,
                b: (n.values[2] / 65536) as u8,
            },
        )
    }
}

/// Conversion to a sphere: no direct values, and child paths `color`,
/// `center` and `radius`, each converted by the rules above; the
/// radius must be positive.
pub open spec fn node_to_sphere(n: NodeV) -> Result<SphereV, Error> {
    if n.values.len() != 0 {
        Err(
            plain_err(
                ErrorKind::WrongValueCount {
                    target: Target::Sphere,
                    expected: 0,
                    found: n.values.len() as usize,
                },
            ),
        )
    } else {
        match get_path_spec(n, "color".spec_bytes()) {
            Err(seg) => Err(plain_err(ErrorKind::MissingChild { segment: seg as usize })),
            Ok(cn) => match node_to_color(cn) {
                Err(e) => Err(e),
                Ok(color) => match get_path_spec(n, "center".spec_bytes()) {
                    Err(seg) => Err(
                        plain_err(ErrorKind::MissingChild { segment: seg as usize }),
                    ),
                    Ok(ctr) => match node_to_vec3(ctr) {
                        Err(e) => Err(e),
                        Ok(center) => match get_path_spec(n, "radius".spec_bytes()) {
                            Err(seg) => Err(
                                plain_err(ErrorKind::MissingChild { segment: seg as usize }),
                            ),
                            Ok(rn) => match node_to_real(rn) {
                                Err(e) => Err(e),
                                Ok(radius) => if radius <= 0 {
                                    Err(
                                        plain_err(
                                            ErrorKind::OutOfRange {
                                                target: Target::Sphere,
                                                index: 0,
                                            },
                                        ),
                                    )
                                } else {
                                    Ok(SphereV { color, center, radius })
                                },
                            },
                        },
                    },
                },
            },
        }
    }
}

/// Conversion of one object-list child, dispatched by its name.
pub open spec fn node_to_object(n: NodeV) -> Result<ObjectV, Error> {
    if n.name == "sphere".spec_bytes() {
        match node_to_sphere(n) {
            Ok(s) => Ok(ObjectV::Sphere(s)),
            Err(e) => Err(e),
        }
    } else {
        Err(plain_err(ErrorKind::UnknownObject))
    }
}

/// Conversion of the object-list children from index `i` on. A child's
/// failure aborts the list and is re-reported with the child's index.
pub open spec fn node_to_objects_from(cs: Seq<NodeV>, i: int) -> Result<Seq<ObjectV>, Error>
    decreases cs.len() - i,
{
    if i < 0 || i >= cs.len() {
        Ok(Seq::empty())
    } else {
        match node_to_object(cs[i]) {
            Err(e) => Err(Error { object: Some(i as usize), kind: e.kind }),
            Ok(o) => match node_to_objects_from(cs, i + 1) {
                Err(e) => Err(e),
                Ok(rest) => Ok(seq![o] + rest),
            },
        }
    }
}

/// Conversion to the object list: no direct values, every child an
/// object.
pub open spec fn node_to_objects(n: NodeV) -> Result<Seq<ObjectV>, Error> {
    if n.values.len() != 0 {
        Err(
            plain_err(
                ErrorKind::WrongValueCount {
                    target: Target::Objects,
                    expected: 0,
                    found: n.values.len() as usize,
                },
            ),
        )
    } else {
        node_to_objects_from(n.children, 0)
    }
}

/// A sphere that converts has a positive radius.
pub proof fn lemma_converted_sphere_radius_positive(n: NodeV)
    requires
        node_to_sphere(n) is Ok,
    ensures
        node_to_sphere(n) matches Ok(s) && s.radius > 0,
{
}

/// Every object of a converted object list is a sphere with a
/// positive radius.
pub proof fn lemma_converted_objects_radius_positive(cs: Seq<NodeV>, i: int)
    requires
        node_to_objects_from(cs, i) is Ok,
    ensures
        node_to_objects_from(cs, i) matches Ok(os) && forall|j: int|
            0 <= j < os.len() ==> (#[trigger] os[j] matches ObjectV::Sphere(s) && s.radius > 0),
    decreases cs.len() - i,
{
    if 0 <= i < cs.len() {
        lemma_converted_objects_radius_positive(cs, i + 1);
        let os = match node_to_objects_from(cs, i) {
            Ok(os) => os,
            Err(_) => Seq::empty(),
        };
        let rest = match node_to_objects_from(cs, i + 1) {
            Ok(rest) => rest,
            Err(_) => Seq::empty(),
        };
        let head = match node_to_object(cs[i]) {
            Ok(o) => o,
            Err(_) => ObjectV::Sphere(
                SphereV {
                    color: ColorV { r: 0, g: 0, b: 0 },
                    center: V3 { x: 0, y: 0, z: 0 },
                    radius: 0,
                },
            ),
        };
        lemma_converted_sphere_radius_positive(cs[i]);
        assert(os == seq![head] + rest);
        assert forall|j: int| 0 <= j < os.len() implies (#[trigger] os[j] matches
            ObjectV::Sphere(s) && s.radius > 0) by {
            if j == 0 {
                assert(os[0] == head);
            } else {
                assert(os[j] == rest[j - 1]);
            }
        }
    }
}

/// Euclidean remainder of a raw value by the fixed-point scale: zero
/// exactly when the value is a whole number.
fn mod_scale(raw: i64) -> (r: u64)
    ensures
        r as int == (raw as int) % 65536,
{
    if raw >= 0 {
        (raw as u64) % 65536
    } else {
        let x: u128 = (-(raw as i128)) as u128;
        let rm: u64 = (x % 65536) as u64;
        proof {
            vstd::arithmetic::div_mod::lemma_fundamental_div_mod(x as int, 65536);
            let q = (x as int) / 65536;
            if rm == 0 {
                vstd::arithmetic::div_mod::lemma_fundamental_div_mod_converse(
                    raw as int,
                    65536,
                    -q,
                    0,
                );
            } else {
                vstd::arithmetic::div_mod::lemma_fundamental_div_mod_converse(
                    raw as int,
                    65536,
                    -q - 1,
                    65536 - rm,
                );
            }
        }
        if rm == 0 {
            0
        } else {
            65536 - rm
        }
    }
}

/// Quotient of a non-negative whole raw value by the scale.
fn div_scale(raw: i64) -> (r: u64)
    requires
        raw >= 0,
    ensures
        r as int == (raw as int) / 65536,
{
    proof {
        vstd::arithmetic::div_mod::lemma_div_nonincreasing(raw as int, 65536);
        vstd::arithmetic::div_mod::lemma_div_pos_is_pos(raw as int, 65536);
    }
    (raw as u64) / 65536
}

impl Node {
    /// Read this node as a single real number.
    pub fn to_real(&self) -> (r: Result<Fixed, Error>)
        ensures
            match r {
                Ok(v) => node_to_real(self@) == Ok::<int, Error>(v@),
                Err(e) => node_to_real(self@) == Err::<int, Error>(e),
            },
    {
        proof {
            lemma_children_view_len(self.children@);
        }
        if self.children.len() != 0 {
            return Err(
                Error::new(
                    ErrorKind::UnexpectedChildren {
                        target: Target::Real,
                        found: self.children.len(),
                    },
                ),
            );
        }
        if self.values.len() != 1 {
            return Err(
                Error::new(
                    ErrorKind::WrongValueCount {
                        target: Target::Real,
                        expected: 1,
                        found: self.values.len(),
                    },
                ),
            );
        }
        Ok(self.values[0])
    }

    /// Read this node as a non-negative integer.
    pub fn to_u32(&self) -> (r: Result<u32, Error>)
        ensures
            match r {
                Ok(v) => node_to_u32(self@) == Ok::<u32, Error>(v),
                Err(e) => node_to_u32(self@) == Err::<u32, Error>(e),
            },
    {
        proof {
            lemma_children_view_len(self.children@);
        }
        if self.children.len() != 0 {
            return Err(
                Error::new(
                    ErrorKind::UnexpectedChildren {
                        target: Target::Integer,
                        found: self.children.len(),
                    },
                ),
            );
        }
        if self.values.len() != 1 {
            return Err(
                Error::new(
                    ErrorKind::WrongValueCount {
                        target: Target::Integer,
                        expected: 1,
                        found: self.values.len(),
                    },
                ),
            );
        }
        let raw = self.values[0].raw();
        if mod_scale(raw) != 0 {
            return Err(Error::new(ErrorKind::NotInteger { target: Target::Integer, index: 0 }));
        }
        if raw < 0 || raw > 0xFFFFFFFF0000i64 {
            return Err(Error::new(ErrorKind::OutOfRange { target: Target::Integer, index: 0 }));
        }
        proof {
            vstd::arithmetic::div_mod::lemma_div_is_ordered(raw as int, 0xFFFFFFFF0000, 65536);
        }
        Ok(div_scale(raw) as u32)
    }

    /// Read this node as a three-component vector.
    pub fn to_vec3(&self) -> (r: Result<Vec3, Error>)
        ensures
            match r {
                Ok(v) => node_to_vec3(self@) == Ok::<V3, Error>(v@),
                Err(e) => node_to_vec3(self@) == Err::<V3, Error>(e),
            },
    {
        proof {
            lemma_children_view_len(self.children@);
        }
        if self.children.len() != 0 {
            return Err(
                Error::new(
                    ErrorKind::UnexpectedChildren {
                        target: Target::Vector,
                        found: self.children.len(),
                    },
                ),
            );
        }
        if self.values.len() != 3 {
            return Err(
                Error::new(
                    ErrorKind::WrongValueCount {
                        target: Target::Vector,
                        expected: 3,
                        found: self.values.len(),
                    },
                ),
            );
        }
        Ok(Vec3::new(self.values[0], self.values[1], self.values[2]))
    }

    /// Read this node as a color.
    pub fn to_color(&self) -> (r: Result<Color, Error>)
        ensures
            match r {
                Ok(c) => node_to_color(self@) == Ok::<ColorV, Error>(c@),
                Err(e) => node_to_color(self@) == Err::<ColorV, Error>(e),
            },
    {
        proof {
            lemma_children_view_len(self.children@);
        }
        if self.children.len() != 0 {
            return Err(
                Error::new(
                    ErrorKind::UnexpectedChildren {
                        target: Target::Color,
                        found: self.children.len(),
                    },
                ),
            );
        }
        if self.values.len() != 3 {
            return Err(
                Error::new(
                    ErrorKind::WrongValueCount {
                        target: Target::Color,
                        expected: 3,
                        found: self.values.len(),
                    },
                ),
            );
        }
        let r0 = self.values[0].raw();
        let r1 = self.values[1].raw();
        let r2 = self.values[2].raw();
        if mod_scale(r0) != 0 {
            return Err(Error::new(ErrorKind::NotInteger { target: Target::Color, index: 0 }));
        }
        if r0 < 0 || r0 > 255 * 65536 {
            return Err(Error::new(ErrorKind::OutOfRange { target: Target::Color, index: 0 }));
        }
        if mod_scale(r1) != 0 {
            return Err(Error::new(ErrorKind::NotInteger { target: Target::Color, index: 1 }));
        }
        if r1 < 0 || r1 > 255 * 65536 {
            return Err(Error::new(ErrorKind::OutOfRange { target: Target::Color, index: 1 }));
        }
        if mod_scale(r2) != 0 {
            return Err(Error::new(ErrorKind::NotInteger { target: Target::Color, index: 2 }));
        }
        if r2 < 0 || r2 > 255 * 65536 {
            return Err(Error::new(ErrorKind::OutOfRange { target: Target::Color, index: 2 }));
        }
        proof {
            vstd::arithmetic::div_mod::lemma_div_is_ordered(r0 as int, 255int * 65536, 65536);
            vstd::arithmetic::div_mod::lemma_div_is_ordered(r1 as int, 255int * 65536, 65536);
            vstd::arithmetic::div_mod::lemma_div_is_ordered(r2 as int, 255int * 65536, 65536);
        }
        Ok(Color::new(div_scale(r0) as u8, div_scale(r1) as u8, div_scale(r2) as u8))
    }

    /// Read this node as a sphere. A sphere that converts has a
    /// positive radius.
    pub fn to_sphere(&self) -> (r: Result<Sphere, Error>)
        ensures
            match r {
                Ok(s) => node_to_sphere(self@) == Ok::<SphereV, Error>(s@),
                Err(e) => node_to_sphere(self@) == Err::<SphereV, Error>(e),
            },
            r matches Ok(s) ==> s@.radius > 0,
    {
        if self.values.len() != 0 {
            return Err(
                Error::new(
                    ErrorKind::WrongValueCount {
                        target: Target::Sphere,
                        expected: 0,
                        found: self.values.len(),
                    },
                ),
            );
        }
        let color_node = match self.get_path("color") {
            Ok(c) => c,
            Err(e) => {
                return Err(e);
            },
        };
        let color = match color_node.to_color() {
            Ok(c) => c,
            Err(e) => {
                return Err(e);
            },
        };
        let center_node = match self.get_path("center") {
            Ok(c) => c,
            Err(e) => {
                return Err(e);
            },
        };
        let center = match center_node.to_vec3() {
            Ok(c) => c,
            Err(e) => {
                return Err(e);
            },
        };
        let radius_node = match self.get_path("radius") {
            Ok(c) => c,
            Err(e) => {
                return Err(e);
            },
        };
        let radius = match radius_node.to_real() {
            Ok(c) => c,
            Err(e) => {
                return Err(e);
            },
        };
        if !radius.gt(Fixed::zero()) {
            return Err(Error::new(ErrorKind::OutOfRange { target: Target::Sphere, index: 0 }));
        }
        Ok(Sphere { color, center, radius })
    }

    /// Read this node as the object list, each child dispatched by its
    /// own name.
    #[verifier::loop_isolation(false)]
    pub fn to_objects(&self) -> (r: Result<Vec<Object>, Error>)
        ensures
            match r {
                Ok(os) => node_to_objects(self@) == Ok::<Seq<ObjectV>, Error>(objects_view(os@)),
                Err(e) => node_to_objects(self@) == Err::<Seq<ObjectV>, Error>(e),
            },
    {
        if self.values.len() != 0 {
            return Err(
                Error::new(
                    ErrorKind::WrongValueCount {
                        target: Target::Objects,
                        expected: 0,
                        found: self.values.len(),
                    },
                ),
            );
        }
        proof {
            lemma_children_view_len(self.children@);
        }
        let ghost cv = self@.children;
        let n = self.children.len();
        let mut out: Vec<Object> = Vec::new();
        let mut i: usize = 0;
        proof {
            if node_to_objects_from(cv, 0) is Ok {
                let whole = match node_to_objects_from(cv, 0) {
                    Ok(w) => w,
                    Err(_) => Seq::empty(),
                };
                assert(objects_view(out@) + whole =~= whole);
            }
        }
        while i < n
            invariant
                n == cv.len(),
                0 <= i <= n,
                out@.len() == i,
                match node_to_objects_from(cv, i as int) {
                    Err(e) => node_to_objects_from(cv, 0) == Err::<Seq<ObjectV>, Error>(e),
                    Ok(rest) => node_to_objects_from(cv, 0) == Ok::<Seq<ObjectV>, Error>(
                        objects_view(out@) + rest,
                    ),
                },
            decreases n - i,
        {
            proof {
                lemma_children_view_index(self.children@, i as int);
            }
            let child = &self.children[i];
            let is_sphere = crate::sdl::bytes_eq_slice(&child.name, "sphere".as_bytes());
            if !is_sphere {
                proof {
                    assert(node_to_object(cv[i as int]) == Err::<ObjectV, Error>(
                        plain_err(ErrorKind::UnknownObject)));
                }
                return Err(
                    Error { object: Some(i), kind: ErrorKind::UnknownObject },
                );
            }
            match child.to_sphere() {
                Ok(s) => {
                    let ghost prev = out@;
                    out.push(Object::Sphere(s));
                    proof {
                        assert(objects_view(out@) =~= objects_view(prev) + seq![
                            ObjectV::Sphere(s@),
                        ]);
                        match node_to_objects_from(cv, i + 1) {
                            Err(_) => {},
                            Ok(rest2) => {
                                assert((objects_view(prev) + (seq![ObjectV::Sphere(s@)] + rest2))
                                    =~= (objects_view(prev) + seq![ObjectV::Sphere(s@)])
                                    + rest2);
                            },
                        }
                    }
                },
                Err(e) => {
                    return Err(Error { object: Some(i), kind: e.kind });
                },
            }
            i = i + 1;
        }
        proof {
            assert(node_to_objects_from(cv, n as int) == Ok::<Seq<ObjectV>, Error>(Seq::empty()));
            assert(objects_view(out@) + Seq::<ObjectV>::empty() =~= objects_view(out@));
        }
        Ok(out)
    }
}

} // verus!
