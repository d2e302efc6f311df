use collision_core::collision::{
    Circle, Collider, CollisionInfo, CollisionShape, Rectangle, COORD_LIMIT,
};
use collision_core::math::Vector;

// Positions and sizes are in hundredths: 100 stands for 1.0.

fn rectangle_at(x: i64, y: i64, width: i64, height: i64) -> Collider {
    Collider {
        position: Vector::new(x, y),
        shape: CollisionShape::Rectangle(Rectangle::new(width, height)),
    }
}

fn circle_at(x: i64, y: i64, radius: i64) -> Collider {
    Collider {
        position: Vector::new(x, y),
        shape: CollisionShape::Circle(Circle::new(radius)),
    }
}

#[test]
fn rectangle_rectangle_collision_tests() {
    let size_for_both_colliders = 100i64;

    let first_collider = Collider {
        position: Vector::default(),
        shape: CollisionShape::Rectangle(Rectangle::new(
            size_for_both_colliders,
            size_for_both_colliders,
        )),
    };

    let mut second_collider = Collider {
        position: Vector::default(),
        shape: CollisionShape::Rectangle(Rectangle::new(
            size_for_both_colliders,
            size_for_both_colliders,
        )),
    };

    assert!(Collider::collide(first_collider, second_collider).is_some());

    second_collider.position = Vector::new(-50, 0);
    assert!(Collider::collide(first_collider, second_collider).is_some());

    second_collider.position = Vector::new(-50, 50);
    assert!(Collider::collide(first_collider, second_collider).is_some());

    second_collider.position = Vector::new(-100, 0);
    assert!(Collider::collide(first_collider, second_collider).is_none());

    second_collider.position = Vector::new(-100, -100);
    assert!(Collider::collide(first_collider, second_collider).is_none());

    second_collider.position = Vector::new(-99, -99);
    assert!(Collider::collide(first_collider, second_collider).is_some());

    second_collider.position = Vector::new(99, 99);
    assert!(Collider::collide(first_collider, second_collider).is_some());
}

#[test]
fn circle_rectangle_collision_tests() {
    let size_for_both_colliders = 100i64;

    let rectangle_collider = Collider {
        position: Vector::default(),
        shape: CollisionShape::Rectangle(Rectangle::new(
            size_for_both_colliders,
            size_for_both_colliders,
        )),
    };

    let mut circular_collider = Collider {
        position: Vector::default(),
        shape: CollisionShape::Circle(Circle::new(size_for_both_colliders)),
    };

    assert!(Collider::collide(rectangle_collider, circular_collider).is_some());

    circular_collider.position = Vector::new(-50, -50);
    assert!(Collider::collide(rectangle_collider, circular_collider).is_some());

    circular_collider.position = Vector::new(50, 0);
    assert!(Collider::collide(rectangle_collider, circular_collider).is_some());

    circular_collider.position = Vector::new(50, 100);
    assert!(Collider::collide(rectangle_collider, circular_collider).is_some());

    circular_collider.position = Vector::new(50, 50);
    assert!(Collider::collide(rectangle_collider, circular_collider).is_some());

    circular_collider.position = Vector::new(50, -99);
    assert!(Collider::collide(rectangle_collider, circular_collider).is_some());

    circular_collider.position = Vector::new(50, -200);
    assert!(Collider::collide(rectangle_collider, circular_collider).is_none());

    //symetric calls
    circular_collider.position = Vector::new(-50, -50);
    assert!(Collider::collide(circular_collider, rectangle_collider).is_some());

    circular_collider.position = Vector::new(50, 0);
    assert!(Collider::collide(circular_collider, rectangle_collider).is_some());

    circular_collider.position = Vector::new(50, 100);
    assert!(Collider::collide(circular_collider, rectangle_collider).is_some());

    circular_collider.position = Vector::new(50, 50);
    assert!(Collider::collide(circular_collider, rectangle_collider).is_some());

    circular_collider.position = Vector::new(50, -99);
    assert!(Collider::collide(circular_collider, rectangle_collider).is_some());

    circular_collider.position = Vector::new(50, -200);
    assert!(Collider::collide(circular_collider, rectangle_collider).is_none());
}

#[test]
fn circle_to_circle_collision_test() {
    let radius = 100i64;
    let first_collider = Collider {
        position: Vector::default(),
        shape: CollisionShape::Circle(Circle::new(radius)),
    };

    let mut second_collider = Collider {
        position: Vector::default(),
        shape: CollisionShape::Circle(Circle::new(radius)),
    };

    assert!(Collider::collide(first_collider, second_collider).is_some());

    second_collider.position = Vector::new(200, 0);
    assert!(Collider::collide(first_collider, second_collider).is_none());

    second_collider.position = Vector::new(199, 0);
    assert!(Collider::collide(first_collider, second_collider).is_some());
}

#[test]
fn circles_collide_only_strictly_closer_than_radii() {
    // distance 500 (a 300-400-500 triangle)
    let first = circle_at(0, 0, 250);
    assert!(Collider::collide(first, circle_at(300, 400, 250)).is_none());
    assert!(Collider::collide(first, circle_at(300, 400, 251)).is_some());
    assert!(Collider::collide(first, circle_at(300, 400, 249)).is_none());
}

#[test]
fn circles_with_no_positive_radius_never_collide() {
    assert!(Collider::collide(circle_at(0, 0, 0), circle_at(0, 0, 0)).is_none());
    assert!(Collider::collide(circle_at(0, 0, -5), circle_at(0, 0, 3)).is_none());
}

#[test]
fn circle_depth_is_the_offset_between_centres() {
    let info = Collider::collide(circle_at(0, 0, 100), circle_at(30, 40, 100)).unwrap();
    assert_eq!(info.collision_depth, Vector::new(30, 40));
    let same_centre = Collider::collide(circle_at(7, 7, 10), circle_at(7, 7, 10)).unwrap();
    assert_eq!(same_centre.collision_depth, Vector::new(0, 0));
}

#[test]
fn rectangles_touching_edges_do_not_collide() {
    let first = rectangle_at(0, 0, 100, 100);
    assert!(Collider::collide(first, rectangle_at(100, 0, 100, 100)).is_none());
    assert!(Collider::collide(first, rectangle_at(0, 100, 100, 100)).is_none());
    assert!(Collider::collide(first, rectangle_at(0, -100, 100, 100)).is_none());
    assert!(Collider::collide(first, rectangle_at(99, 0, 100, 100)).is_some());
    // overlapping on x only
    assert!(Collider::collide(first, rectangle_at(50, 150, 100, 100)).is_none());
    // odd sizes: extents 0.5 and 1.5 meet at x = 2.0
    assert!(Collider::collide(rectangle_at(0, 0, 1, 1), rectangle_at(2, 0, 3, 1)).is_none());
    assert!(Collider::collide(rectangle_at(0, 0, 1, 1), rectangle_at(1, 0, 3, 1)).is_some());
}

#[test]
fn rectangle_depth_keeps_the_axis_of_least_penetration() {
    // support points 0.5 apart on x, 1.0 apart on y: x is kept, halved
    let info = Collider::collide(rectangle_at(0, 0, 100, 100), rectangle_at(50, 0, 100, 100)).unwrap();
    assert_eq!(info.collision_depth, Vector::new(25, 0));
    let info = Collider::collide(rectangle_at(0, 0, 100, 100), rectangle_at(10, -60, 100, 100)).unwrap();
    assert_eq!(info.collision_depth, Vector::new(0, -20));
    let back = Collider::collide(rectangle_at(10, -60, 100, 100), rectangle_at(0, 0, 100, 100)).unwrap();
    assert_eq!(back.collision_depth, Vector::new(0, 20));
    // halves are rounded toward zero
    let info = Collider::collide(rectangle_at(0, 0, 100, 100), rectangle_at(-99, 0, 100, 100)).unwrap();
    assert_eq!(info.collision_depth, Vector::new(0, 0));
}

#[test]
fn rectangle_support_points_follow_the_centres() {
    // unequal widths: the lower edges and the centres disagree on the side
    let info = Collider::collide(rectangle_at(0, 0, 12, 100), rectangle_at(-2, 2, 4, 100)).unwrap();
    assert_eq!(info.collision_depth, Vector::new(-3, 0));
    let back = Collider::collide(rectangle_at(-2, 2, 4, 100), rectangle_at(0, 0, 12, 100)).unwrap();
    assert_eq!(back.collision_depth, Vector::new(3, 0));
}

#[test]
fn circle_rectangle_depth_is_rounded_once() {
    // offset (-0.5, -0.5), exact correction about (70.2, 70.2)
    let rectangle = rectangle_at(0, 0, 1, 1);
    let circle = circle_at(1, 1, 100);
    let for_rectangle = Collider::collide(rectangle, circle).unwrap();
    assert_eq!(for_rectangle.collision_depth, Vector::new(70, 70));
    let for_circle = Collider::collide(circle, rectangle).unwrap();
    assert_eq!(for_circle.collision_depth, Vector::new(-70, -70));
}

#[test]
fn circle_rectangle_depth_points_at_the_other_party() {
    let rectangle = rectangle_at(0, 0, 100, 100);
    let circle = circle_at(0, 120, 100);
    let for_rectangle = Collider::collide(rectangle, circle).unwrap();
    assert_eq!(for_rectangle.collision_depth, Vector::new(0, 30));
    let for_circle = Collider::collide(circle, rectangle).unwrap();
    assert_eq!(for_circle.collision_depth, Vector::new(0, -30));
    // centre inside the rectangle: no direction, no correction
    let inside = Collider::collide(circle_at(10, 10, 5), rectangle).unwrap();
    assert_eq!(inside.collision_depth, Vector::new(0, 0));
    // corner: offset (30, 40), length 50, radius 60
    let corner = Collider::collide(rectangle_at(0, 0, 100, 100), circle_at(80, 90, 60)).unwrap();
    assert_eq!(corner.collision_depth, Vector::new(6, 8));
}

#[test]
fn collision_existence_does_not_depend_on_order() {
    let colliders = [
        circle_at(0, 0, 100),
        circle_at(150, 0, 60),
        rectangle_at(80, 80, 100, 60),
        rectangle_at(-120, 10, 50, 50),
        circle_at(-150, 40, 20),
        rectangle_at(0, 0, 300, 10),
    ];
    for a in colliders.iter() {
        for b in colliders.iter() {
            assert_eq!(
                Collider::collide(*a, *b).is_some(),
                Collider::collide(*b, *a).is_some()
            );
        }
    }
}

#[test]
fn symetrical_negates_the_depth() {
    let info = CollisionInfo::new(Vector::new(3, -7));
    let other = info.symetrical();
    assert_eq!(other.collision_depth, Vector::new(-3, 7));
    assert_eq!(other.symetrical(), info);
    let zero = CollisionInfo::new(Vector::new(0, 0));
    assert_eq!(zero.symetrical(), zero);
}

#[test]
fn scenario_circles_at_the_contact_distance() {
    let first = circle_at(0, 0, 100);
    assert!(Collider::collide(first, circle_at(199, 0, 100)).is_some());
    assert!(Collider::collide(first, circle_at(200, 0, 100)).is_none());
}

#[test]
fn scenario_rectangles_edge_to_edge() {
    let first = rectangle_at(0, 0, 100, 100);
    assert!(Collider::collide(first, rectangle_at(-100, 0, 100, 100)).is_none());
    assert!(Collider::collide(first, rectangle_at(-99, 0, 100, 100)).is_some());
}

#[test]
fn scenario_rectangle_and_circle() {
    let rectangle = rectangle_at(0, 0, 100, 100);
    assert!(Collider::collide(rectangle, circle_at(50, 100, 100)).is_some());
    assert!(Collider::collide(rectangle, circle_at(50, -200, 100)).is_none());
}

#[test]
fn point_in_rectangle_is_strict() {
    let position = Vector::new(0, 0);
    let rectangle = Rectangle::new(100, 100);
    assert!(Collider::is_point_in_rectangle(position, rectangle, Vector::new(0, 0)));
    assert!(Collider::is_point_in_rectangle(position, rectangle, Vector::new(49, -49)));
    assert!(!Collider::is_point_in_rectangle(position, rectangle, Vector::new(50, 0)));
    assert!(!Collider::is_point_in_rectangle(position, rectangle, Vector::new(0, -50)));
}

#[test]
fn outer_circle_holds_the_rectangle() {
    assert_eq!(Collider::outer_rectangle_circle(Rectangle::new(60, 80)).radius, 50);
    assert_eq!(Collider::outer_rectangle_circle(Rectangle::new(1, 1)).radius, 1);
    assert_eq!(Collider::outer_rectangle_circle(Rectangle::new(100, 100)).radius, 71);
    assert_eq!(Collider::outer_rectangle_circle(Rectangle::new(0, 0)).radius, 0);
}

#[test]
fn bounds_check_matches_the_limit() {
    assert!(circle_at(COORD_LIMIT, -COORD_LIMIT, COORD_LIMIT).is_within_bounds());
    assert!(!circle_at(COORD_LIMIT + 1, 0, 1).is_within_bounds());
    assert!(!rectangle_at(0, 0, 1, -COORD_LIMIT - 1).is_within_bounds());
}
