use relay_map::geometry::{
    geometry_paths, ring_to_path, steps_to_path, Geometry, LonLat, PathStep, RawCoordinates, Ring,
};
use relay_map::projection::{Degrees, PixelPoint};

fn at(lon: i32, lat: i32) -> Option<LonLat> {
    Some(LonLat { lon: Degrees::from_whole(lon), lat: Degrees::from_whole(lat) })
}

fn px(x: i128, y: i128) -> PixelPoint {
    PixelPoint { x, y }
}

fn number(whole: i32) -> RawCoordinates {
    RawCoordinates::Number(Degrees::from_whole(whole))
}

fn pair(lon: i32, lat: i32) -> RawCoordinates {
    RawCoordinates::List(vec![number(lon), number(lat)])
}

fn triangle() -> Ring {
    Ring::new(vec![at(0, 0), at(10, 10), at(20, 0)])
}

#[test]
fn a_triangle_is_a_move_two_lines_and_a_close() {
    let steps = triangle().steps();
    assert_eq!(
        steps,
        vec![
            PathStep::MoveTo(px(180_000_000, 90_000_000)),
            PathStep::LineTo(px(190_000_000, 80_000_000)),
            PathStep::LineTo(px(200_000_000, 90_000_000)),
            PathStep::Close,
        ]
    );
    assert_eq!(ring_to_path(&triangle()), "M600.00,300.00L633.33,266.67L666.67,300.00Z");
}

#[test]
fn an_unreadable_vertex_is_dropped_and_the_ring_kept() {
    let ring = Ring::new(vec![at(0, 0), None, at(10, 10), at(20, 0)]);
    assert_eq!(ring.steps(), triangle().steps());
    assert_eq!(ring_to_path(&ring), "M600.00,300.00L633.33,266.67L666.67,300.00Z");
    let last = Ring::new(vec![at(0, 0), at(10, 10), at(20, 0), None]);
    assert_eq!(ring_to_path(&last), "M600.00,300.00L633.33,266.67L666.67,300.00Z");
}

#[test]
fn the_first_readable_vertex_is_the_move() {
    let ring = Ring::new(vec![None, None, at(0, 0), at(10, 10), None, at(20, 0)]);
    assert_eq!(ring.steps(), triangle().steps());
    assert_eq!(ring_to_path(&ring), "M600.00,300.00L633.33,266.67L666.67,300.00Z");
}

#[test]
fn a_ring_without_readable_vertices_still_closes() {
    assert_eq!(Ring::new(vec![]).steps(), vec![PathStep::Close]);
    assert_eq!(ring_to_path(&Ring::new(vec![])), "Z");
    assert_eq!(ring_to_path(&Ring::new(vec![None, None])), "Z");
    assert_eq!(ring_to_path(&Ring::new(vec![at(-180, 90)])), "M0.00,0.00Z");
}

#[test]
fn a_repeated_first_vertex_is_drawn_as_it_stands() {
    let ring = Ring::new(vec![at(0, 0), at(10, 10), at(0, 0)]);
    assert_eq!(ring_to_path(&ring), "M600.00,300.00L633.33,266.67L600.00,300.00Z");
}

#[test]
fn steps_are_written_one_after_the_other() {
    assert_eq!(steps_to_path(&vec![]), "");
    assert_eq!(steps_to_path(&vec![PathStep::Close, PathStep::Close]), "ZZ");
    let steps = vec![
        PathStep::LineTo(px(-300_000, 1_500)),
        PathStep::MoveTo(px(300_000, 4_500)),
    ];
    assert_eq!(steps_to_path(&steps), "L-1.00,0.00M1.00,0.02");
}

#[test]
fn a_polygon_has_one_path_per_ring_in_order() {
    let hole = Ring::new(vec![at(1, 1), at(2, 2)]);
    let polygon = Geometry::Polygon(vec![triangle(), hole, Ring::new(vec![])]);
    assert_eq!(
        geometry_paths(&polygon),
        vec![
            "M600.00,300.00L633.33,266.67L666.67,300.00Z".to_string(),
            "M603.33,296.67L606.67,293.33Z".to_string(),
            "Z".to_string(),
        ]
    );
    assert_eq!(geometry_paths(&Geometry::Polygon(vec![])), Vec::<String>::new());
}

#[test]
fn a_multi_polygon_goes_polygon_by_polygon() {
    let first = vec![triangle(), Ring::new(vec![at(1, 1)])];
    let second = vec![];
    let third = vec![Ring::new(vec![at(-180, 90), at(180, -90)])];
    let multi = Geometry::MultiPolygon(vec![first, second, third]);
    assert_eq!(
        geometry_paths(&multi),
        vec![
            "M600.00,300.00L633.33,266.67L666.67,300.00Z".to_string(),
            "M603.33,296.67Z".to_string(),
            "M0.00,0.00L1200.00,600.00Z".to_string(),
        ]
    );
}

#[test]
fn an_unrecognized_geometry_has_no_path() {
    assert_eq!(geometry_paths(&Geometry::Unrecognized), Vec::<String>::new());
}

#[test]
fn a_polygon_is_decoded_from_nested_lists() {
    let coordinates = RawCoordinates::List(vec![RawCoordinates::List(vec![
        pair(0, 0),
        pair(10, 10),
        pair(20, 0),
    ])]);
    let geometry = Geometry::decode("Polygon", &coordinates);
    assert!(matches!(geometry, Geometry::Polygon(_)));
    assert_eq!(
        geometry_paths(&geometry),
        vec!["M600.00,300.00L633.33,266.67L666.67,300.00Z".to_string()]
    );
}

#[test]
fn decoding_keeps_what_it_can_read() {
    let ring = RawCoordinates::List(vec![
        pair(0, 0),
        RawCoordinates::Other,
        RawCoordinates::List(vec![number(5)]),
        RawCoordinates::List(vec![number(5), RawCoordinates::Other]),
        RawCoordinates::List(vec![RawCoordinates::List(vec![]), number(5)]),
        number(7),
        RawCoordinates::List(vec![number(10), number(10), number(99)]),
        pair(20, 0),
    ]);
    let coordinates = RawCoordinates::List(vec![
        RawCoordinates::Other,
        ring,
        number(3),
        RawCoordinates::List(vec![]),
    ]);
    let geometry = Geometry::decode("Polygon", &coordinates);
    match &geometry {
        Geometry::Polygon(rings) => {
            assert_eq!(rings.len(), 2);
            assert_eq!(
                rings[0].vertices,
                vec![at(0, 0), None, None, None, None, None, at(10, 10), at(20, 0)]
            );
            assert_eq!(rings[1].vertices, vec![]);
        }
        _ => panic!("not a polygon"),
    }
    assert_eq!(
        geometry_paths(&geometry),
        vec!["M600.00,300.00L633.33,266.67L666.67,300.00Z".to_string(), "Z".to_string()]
    );
}

#[test]
fn a_multi_polygon_is_decoded_from_nested_lists() {
    let coordinates = RawCoordinates::List(vec![
        RawCoordinates::List(vec![RawCoordinates::List(vec![pair(0, 0), pair(10, 10)])]),
        RawCoordinates::Other,
        RawCoordinates::List(vec![
            number(1),
            RawCoordinates::List(vec![pair(20, 0)]),
            RawCoordinates::List(vec![]),
        ]),
    ]);
    let geometry = Geometry::decode("MultiPolygon", &coordinates);
    match &geometry {
        Geometry::MultiPolygon(polygons) => {
            assert_eq!(polygons.len(), 2);
            assert_eq!(polygons[0].len(), 1);
            assert_eq!(polygons[1].len(), 2);
        }
        _ => panic!("not a multi-polygon"),
    }
    assert_eq!(
        geometry_paths(&geometry),
        vec![
            "M600.00,300.00L633.33,266.67Z".to_string(),
            "M666.67,300.00Z".to_string(),
            "Z".to_string(),
        ]
    );
}

#[test]
fn coordinates_that_are_no_list_hold_no_ring() {
    let polygon = Geometry::decode("Polygon", &RawCoordinates::Other);
    assert!(matches!(&polygon, Geometry::Polygon(rings) if rings.is_empty()));
    let multi = Geometry::decode("MultiPolygon", &number(1));
    assert!(matches!(&multi, Geometry::MultiPolygon(polygons) if polygons.is_empty()));
    assert_eq!(geometry_paths(&polygon), Vec::<String>::new());
    assert_eq!(geometry_paths(&multi), Vec::<String>::new());
}

#[test]
fn other_tags_are_tolerated() {
    let coordinates = RawCoordinates::List(vec![RawCoordinates::List(vec![pair(0, 0)])]);
    for tag in ["", "Point", "LineString", "polygon", "POLYGON", "Polygon ", "MultiPolygons"] {
        let geometry = Geometry::decode(tag, &coordinates);
        assert!(matches!(geometry, Geometry::Unrecognized), "tag {tag}");
        assert_eq!(geometry_paths(&geometry), Vec::<String>::new());
    }
}
