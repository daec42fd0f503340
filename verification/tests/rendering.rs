use shapes2d::error::GeomError;
use shapes2d::frac::Frac;
use shapes2d::gen_hello;
use shapes2d::path::Path;
use shapes2d::point::Point;
use shapes2d::rotate_shape;
use shapes2d::shape::Shape;
use shapes2d::transform::{Nest, Rotate, Rotation, Scale, Transformation, Translate};
use shapes2d::translate_shape;

const PLAIN_SQUARE_SVG: &str = "<svg width=\"200\" height=\"200\" xmlns=\"http://www.w3.org/2000/svg\"><path d=\"M95 95 L105 95 Z\" style=\"fill:none;stroke:black;stroke-width:2\"/><path d=\"M105 95 L105 105 Z\" style=\"fill:none;stroke:black;stroke-width:2\"/><path d=\"M105 105 L95 105 Z\" style=\"fill:none;stroke:black;stroke-width:2\"/><path d=\"M95 105 L95 95 Z\" style=\"fill:none;stroke:black;stroke-width:2\"/></svg>";

#[test]
fn hello_line_is_fixed() {
    assert_eq!(gen_hello(), "Hello from base");
}

#[test]
fn square_has_four_edges_with_half_side_corners() {
    let s = Shape::square(Frac::from_int(10), None).unwrap();
    assert_eq!(s.paths.len(), 4);
    let c1 = Point::from(Frac::new(-5, 1).unwrap(), Frac::new(-5, 1).unwrap()).unwrap();
    let c2 = Point::from_int(5, -5);
    let c3 = Point::from_int(5, 5);
    let c4 = Point::from_int(-5, 5);
    assert!(s.paths[0].points[0].coincides(&c1));
    assert!(s.paths[0].points[1].coincides(&c2));
    assert!(s.paths[1].points[0].coincides(&c2));
    assert!(s.paths[1].points[1].coincides(&c3));
    assert!(s.paths[2].points[0].coincides(&c3));
    assert!(s.paths[2].points[1].coincides(&c4));
    assert!(s.paths[3].points[0].coincides(&c4));
    assert!(s.paths[3].points[1].coincides(&c1));
}

#[test]
fn square_centroid_is_the_origin() {
    let s = Shape::square(Frac::from_int(10), None).unwrap();
    let c = s.center().unwrap();
    assert!(c.coincides(&Point::from_int(0, 0)));
}

#[test]
fn plain_square_serializes_with_corner_at_95_95() {
    let s = Shape::square(Frac::from_int(10), None).unwrap();
    let svg = s.to_svg().unwrap();
    assert!(svg.starts_with("<svg width=\"200\" height=\"200\""));
    assert!(svg.contains("M95 95 "));
    assert_eq!(svg, PLAIN_SQUARE_SVG);
}

#[test]
fn unit_square_quarter_turn_moves_lower_right_corner_up() {
    // Corner (1, -1) of the square with corners (±1, ±1) lands on (1, 1)
    // after a quarter turn about the square's own centroid.
    let paths = vec![
        Path::line(Point::from_int(-1, -1), Point::from_int(1, -1)),
        Path::line(Point::from_int(1, -1), Point::from_int(1, 1)),
        Path::line(Point::from_int(1, 1), Point::from_int(-1, 1)),
        Path::line(Point::from_int(-1, 1), Point::from_int(-1, -1)),
    ];
    let shape = Shape::from(paths);
    let r = Rotate::from(90).unwrap();
    let rotated = r.apply(&shape).unwrap();
    assert!(rotated.paths[1].points[0].coincides(&Point::from_int(1, 1)));
}

#[test]
fn add_concatenates_paths_in_order() {
    let square = Shape::square(Frac::from_int(10), None).unwrap();
    let line = Shape::horizontal_line(Frac::from_int(7));
    let joined = square.add(&line);
    assert_eq!(joined.paths.len(), square.paths.len() + line.paths.len());
    assert!(joined.paths[0].points[0].coincides(&square.paths[0].points[0]));
    assert!(joined.paths[3].points[1].coincides(&square.paths[3].points[1]));
    assert!(joined.paths[4].points[1].coincides(&Point::from_int(7, 0)));
}

#[test]
fn nest_discards_its_children_and_returns_the_input() {
    let shape = Shape::from(vec![Path::line(
        Point::from_int(1, 1),
        Point::from_int(2, 2),
    )]);
    let inner = Transformation::translate(Frac::from_int(3), Frac::from_int(4)).unwrap();
    let nest = Transformation::Nest(Nest::from(vec![inner]));
    let out = nest.apply(&shape).unwrap();
    assert_eq!(out.paths.len(), shape.paths.len());
    assert!(out.paths[0].points[0].coincides(&shape.paths[0].points[0]));
    assert!(out.paths[0].points[1].coincides(&shape.paths[0].points[1]));
}

#[test]
fn scale_multiplies_coordinates_about_the_origin() {
    let sc = Scale::from(Frac::new(3, 2).unwrap());
    let p = Point::from_int(4, -6);
    let q = sc.scaled_point(&p).unwrap();
    assert!(q.coincides(&Point::from_int(6, -9)));
    let half = sc.scaled_point(&Point::from_int(1, 0)).unwrap();
    let expected = Point::from(Frac::new(3, 2).unwrap(), Frac::from_int(0)).unwrap();
    assert!(half.coincides(&expected));
}

#[test]
fn scale_by_one_is_the_identity() {
    let sc = Scale::from(Frac::from_int(1));
    let s = Shape::square(Frac::from_int(10), None).unwrap();
    let out = sc.apply(&s).unwrap();
    assert!(out.paths[0].points[0].coincides(&s.paths[0].points[0]));
    assert!(out.paths[3].points[1].coincides(&s.paths[3].points[1]));
}

#[test]
fn normalization_of_a_pythagorean_vector_is_exact() {
    let p = Point::from_int(3, 4);
    let u = p.normalized().unwrap();
    assert!(u.x().eqv(&Frac::new(3, 5).unwrap()));
    assert!(u.y().eqv(&Frac::new(4, 5).unwrap()));
    assert!(p.length().unwrap().eqv(&Frac::from_int(5)));
}

#[test]
fn distance_between_points_on_a_345_triangle() {
    let a = Point::from_int(1, 1);
    let b = Point::from_int(4, 5);
    assert!(a.distance_to(&b).unwrap().eqv(&Frac::from_int(5)));
}

#[test]
fn irrational_norms_are_refused() {
    assert!(matches!(
        Point::from_int(1, 1).length(),
        Err(GeomError::Irrational)
    ));
    assert!(matches!(
        Point::from_int(1, 2).normalized(),
        Err(GeomError::Irrational)
    ));
}

#[test]
fn zero_vectors_are_refused() {
    assert!(matches!(
        Point::from_int(0, 0).normalized(),
        Err(GeomError::DegenerateVector)
    ));
    assert!(matches!(
        Translate::from(Point::from_int(0, 0), Frac::from_int(1)),
        Err(GeomError::DegenerateVector)
    ));
    assert!(matches!(
        Transformation::translate(Frac::from_int(0), Frac::from_int(0)),
        Err(GeomError::DegenerateVector)
    ));
}

#[test]
fn non_quarter_angles_are_refused() {
    assert!(matches!(Rotate::from(45), Err(GeomError::Irrational)));
    assert!(matches!(
        Transformation::rotate(30),
        Err(GeomError::Irrational)
    ));
    assert!(Rotate::from(720).is_ok());
    assert!(Rotate::from(-270).is_ok());
}

#[test]
fn fraction_constructors_reject_bad_denominators() {
    assert!(matches!(Frac::new(1, 0), Err(GeomError::DegenerateVector)));
    let f = Frac::new(3, -6).unwrap();
    assert_eq!(f.num(), -3);
    assert_eq!(f.den(), 6);
    assert!(f.eqv(&Frac::new(-1, 2).unwrap()));
    assert!(matches!(
        Frac::new(3000000, 1),
        Err(GeomError::Overflow)
    ));
}

#[test]
fn serializing_a_shape_without_points_fails() {
    let empty = Shape::from(vec![]);
    assert!(matches!(
        empty.to_svg(),
        Err(GeomError::DegenerateVector)
    ));
    assert!(matches!(
        empty.center(),
        Err(GeomError::DegenerateVector)
    ));
}

#[test]
fn serializing_an_empty_path_fails() {
    let s = Shape::from(vec![
        Path::from(vec![Point::from_int(1, 1), Point::from_int(2, 2)]),
        Path::from(vec![]),
    ]);
    assert!(matches!(s.to_svg(), Err(GeomError::EmptyPath)));
}

#[test]
fn serializing_a_nonterminating_coordinate_fails() {
    let s = Shape::from(vec![Path::line(
        Point::from(Frac::new(1, 3).unwrap(), Frac::from_int(0)).unwrap(),
        Point::from(Frac::new(2, 3).unwrap(), Frac::from_int(0)).unwrap(),
    )]);
    assert!(matches!(s.to_svg(), Err(GeomError::Irrational)));
}

#[test]
fn rotate_shape_renders_the_turned_square() {
    let svg = rotate_shape(10, 90).unwrap();
    assert!(svg.starts_with("<svg width=\"200\" height=\"200\""));
    assert!(svg.contains("M105 95 L105 105 Z"));
    assert!(matches!(rotate_shape(10, 45), Err(GeomError::Irrational)));
}

#[test]
fn translate_shape_recenters_to_the_same_document() {
    // The serializer re-centers every shape on the viewport center, so a
    // translated square serializes exactly as the untranslated one.
    let svg = translate_shape(10, 3, 4).unwrap();
    assert_eq!(svg, PLAIN_SQUARE_SVG);
    assert!(matches!(
        translate_shape(10, 0, 0),
        Err(GeomError::DegenerateVector)
    ));
}

#[test]
fn half_integer_coordinates_render_as_decimals() {
    let svg = rotate_shape(5, 0).unwrap();
    // Side 5 has corners at (±5/2, ±5/2), centered to 97.5 and 102.5.
    assert!(svg.contains("M97.5 97.5 "));
}

#[test]
fn vertical_and_horizontal_lines_span_their_length() {
    let h = Shape::horizontal_line(Frac::from_int(9));
    assert!(h.paths[0].points[0].coincides(&Point::from_int(0, 0)));
    assert!(h.paths[0].points[1].coincides(&Point::from_int(9, 0)));
    let v = Shape::vertical_line(Frac::from_int(9));
    assert!(v.paths[0].points[1].coincides(&Point::from_int(0, 9)));
    let l = Shape::line(Frac::from_int(9), None).unwrap();
    assert!(l.paths[0].points[1].coincides(&Point::from_int(9, 0)));
}

#[test]
fn pythagorean_rotations_are_exact_and_reversible() {
    // The 3-4-5 rotation (cosine 3/5, sine 4/5) lies exactly on the unit
    // circle; rotating and then rotating back restores the point exactly.
    let fwd = Rotate {
        around: None,
        rotation: Rotation { cn: 3, sn: 4, den: 5 },
    };
    let back = Rotate {
        around: None,
        rotation: Rotation { cn: 3, sn: -4, den: 5 },
    };
    let p = Point::from_int(5, 0);
    let o = Point::from_int(0, 0);
    let turned = fwd.a_point(&p, &o).unwrap();
    assert!(turned.coincides(&Point::from_int(3, 4)));
    let restored = back.a_point(&turned, &o).unwrap();
    assert!(restored.coincides(&p));
}
