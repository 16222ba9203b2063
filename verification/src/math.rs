//! Small vectors with componentwise addition and subtraction, generic over
//! the component type.
use vstd::prelude::*;
use vstd::std_specs::ops::{AddSpec, SubSpec};

verus! {

/// A two-component vector.
#[derive(Copy, Clone, Debug)]
pub struct Vector2<T> {
    pub x: T,
    pub y: T,
}

impl<T: core::ops::Add> core::ops::Add for Vector2<T> {
    type Output = Vector2<T::Output>;

    fn add(self, other: Self) -> Vector2<T::Output> {
        Vector2 { x: self.x + other.x, y: self.y + other.y }
    }
}

/// Addition of `Vector2` is addition of each component.
impl<T: core::ops::Add> vstd::std_specs::ops::AddSpecImpl for Vector2<T> {
    open spec fn obeys_add_spec() -> bool {
        <T as AddSpec>::obeys_add_spec()
    }

    open spec fn add_req(self, rhs: Self) -> bool {
        self.x.add_req(rhs.x) && self.y.add_req(rhs.y)
    }

    open spec fn add_spec(self, rhs: Self) -> Vector2<T::Output> {
        Vector2 { x: self.x.add_spec(rhs.x), y: self.y.add_spec(rhs.y) }
    }
}

impl<T: core::ops::Sub> core::ops::Sub for Vector2<T> {
    type Output = Vector2<T::Output>;

    fn sub(self, other: Self) -> Vector2<T::Output> {
        Vector2 { x: self.x - other.x, y: self.y - other.y }
    }
}

/// Subtraction of `Vector2` is subtraction of each component.
impl<T: core::ops::Sub> vstd::std_specs::ops::SubSpecImpl for Vector2<T> {
    open spec fn obeys_sub_spec() -> bool {
        <T as SubSpec>::obeys_sub_spec()
    }

    open spec fn sub_req(self, rhs: Self) -> bool {
        self.x.sub_req(rhs.x) && self.y.sub_req(rhs.y)
    }

    open spec fn sub_spec(self, rhs: Self) -> Vector2<T::Output> {
        Vector2 { x: self.x.sub_spec(rhs.x), y: self.y.sub_spec(rhs.y) }
    }
}

/// A three-component vector.
#[derive(Copy, Clone, Debug)]
pub struct Vector3<T> {
    pub x: T,
    pub y: T,
    pub z: T,
}

impl<T: core::ops::Add> core::ops::Add for Vector3<T> {
    type Output = Vector3<T::Output>;

    fn add(self, other: Self) -> Vector3<T::Output> {
        Vector3 { x: self.x + other.x, y: self.y + other.y, z: self.z + other.z }
    }
}

/// Addition of `Vector3` is addition of each component.
impl<T: core::ops::Add> vstd::std_specs::ops::AddSpecImpl for Vector3<T> {
    open spec fn obeys_add_spec() -> bool {
        <T as AddSpec>::obeys_add_spec()
    }

    open spec fn add_req(self, rhs: Self) -> bool {
        self.x.add_req(rhs.x) && self.y.add_req(rhs.y) && self.z.add_req(rhs.z)
    }

    open spec fn add_spec(self, rhs: Self) -> Vector3<T::Output> {
        Vector3 {
            x: self.x.add_spec(rhs.x),
            y: self.y.add_spec(rhs.y),
            z: self.z.add_spec(rhs.z),
        }
    }
}

impl<T: core::ops::Sub> core::ops::Sub for Vector3<T> {
    type Output = Vector3<T::Output>;

    fn sub(self, other: Self) -> Vector3<T::Output> {
        Vector3 { x: self.x - other.x, y: self.y - other.y, z: self.z - other.z }
    }
}

/// Subtraction of `Vector3` is subtraction of each component.
impl<T: core::ops::Sub> vstd::std_specs::ops::SubSpecImpl for Vector3<T> {
    open spec fn obeys_sub_spec() -> bool {
        <T as SubSpec>::obeys_sub_spec()
    }

    open spec fn sub_req(self, rhs: Self) -> bool {
        self.x.sub_req(rhs.x) && self.y.sub_req(rhs.y) && self.z.sub_req(rhs.z)
    }

    open spec fn sub_spec(self, rhs: Self) -> Vector3<T::Output> {
        Vector3 {
            x: self.x.sub_spec(rhs.x),
            y: self.y.sub_spec(rhs.y),
            z: self.z.sub_spec(rhs.z),
        }
    }
}

/// For integer components, subtracting `b` undoes adding `b`, and the sum
/// does not depend on the order of the operands.
pub proof fn lemma_vector2_add_sub(a: Vector2<i64>, b: Vector2<i64>)
    requires
        a.add_req(b),
    ensures
        a.add_spec(b) == b.add_spec(a),
        a.add_spec(b).sub_req(b),
        a.add_spec(b).sub_spec(b) == a,
{
}

/// For integer components, subtracting `b` undoes adding `b`, and the sum
/// does not depend on the order of the operands.
pub proof fn lemma_vector3_add_sub(a: Vector3<i64>, b: Vector3<i64>)
    requires
        a.add_req(b),
    ensures
        a.add_spec(b) == b.add_spec(a),
        a.add_spec(b).sub_req(b),
        a.add_spec(b).sub_spec(b) == a,
{
}

} // verus!
