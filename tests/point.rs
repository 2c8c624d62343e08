use generics::{Point, Point3d};

#[test]
fn mixup_takes_x_from_self_and_y_from_other() {
    let p1 = Point { x: 1, y: 2 };
    let p2 = Point { x: 'a', y: 'b' };
    let m = p1.mixup(p2);
    assert_eq!(m.x, 1);
    assert_eq!(m.y, 'b');
}

#[test]
fn mixup_with_float_coordinate() {
    let p1 = Point { x: 1, y: 2.0 };
    let p2 = Point { x: "s", y: 'c' };
    let m = p1.mixup(p2);
    assert_eq!(m.x, 1);
    assert_eq!(m.y, 'c');
}

#[test]
fn point3d_x_getter() {
    let p = Point3d { x: 1, y: 2, z: 3 };
    assert_eq!(*p.x(), 1);
    assert_eq!(p.y, 2);
    assert_eq!(p.z, 3);
}
