use mandelbrot::{Vector2, Vector3};

#[test]
fn vector2_add_and_sub() {
    let a = Vector2 { x: 1i32, y: -2 };
    let b = Vector2 { x: 10i32, y: 20 };
    let c = a + b;
    assert_eq!((c.x, c.y), (11, 18));
    let d = c - b;
    assert_eq!((d.x, d.y), (1, -2));
    let e = b + a;
    assert_eq!((e.x, e.y), (c.x, c.y));
}

#[test]
fn vector3_add_and_sub() {
    let a = Vector3 { x: 1i64, y: 2, z: 3 };
    let b = Vector3 { x: -4i64, y: 5, z: 100 };
    let c = a + b;
    assert_eq!((c.x, c.y, c.z), (-3, 7, 103));
    let d = c - b;
    assert_eq!((d.x, d.y, d.z), (1, 2, 3));
}

#[test]
fn float_vectors() {
    let a = Vector3 { x: 1.0f32, y: -1.0, z: 0.0 };
    let b = Vector3 { x: 0.5f32, y: 0.25, z: 2.0 };
    let c = a - b;
    assert_eq!((c.x, c.y, c.z), (0.5, -1.25, -2.0));
    let p = Vector2 { x: -1.0f32, y: 1.0 } + Vector2 { x: 2.0f32, y: 2.0 };
    assert_eq!((p.x, p.y), (1.0, 3.0));
}
