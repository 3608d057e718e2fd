use floor_structure::error::GeometryError;
use floor_structure::fixed::Ratio;
use floor_structure::floorplan::{Floorplan, Room};
use floor_structure::geometry::{compute_bounding_box, BoundingBox, Transformation};

fn pt(x: Option<i64>, z: Option<i64>) -> Transformation {
    Transformation { x, y: None, z }
}

fn room(archi_id: &str, points: Vec<Transformation>) -> Room {
    Room { archi_id: archi_id.to_string(), room_type: 1, area: 0, inner_points: points }
}

fn plan(rooms: Vec<Room>) -> Floorplan {
    Floorplan {
        id: "fp".to_string(),
        archi_id: Some("a".to_string()),
        title: Some("t".to_string()),
        area: Some(1),
        rooms: Some(rooms),
    }
}

#[test]
fn empty_point_list_is_empty_geometry() {
    assert_eq!(compute_bounding_box(&[]), Err(GeometryError::EmptyGeometry));
}

#[test]
fn axis_without_any_coordinate_is_empty_geometry() {
    let pts = vec![pt(Some(1), None), pt(Some(3), None)];
    assert_eq!(compute_bounding_box(&pts), Err(GeometryError::EmptyGeometry));
}

#[test]
fn rectangle_sides_are_doubled_spreads() {
    let pts = vec![pt(Some(0), Some(0)), pt(Some(1_000_000), Some(2_000_000))];
    let b = compute_bounding_box(&pts).unwrap();
    assert_eq!(b.width, 2_000_000);
    assert_eq!(b.height, 4_000_000);
    assert_eq!(b.area, 8_000_000);
    assert_eq!(b.aspect, Ratio::Finite(500_000));
    assert_eq!(b.aspect_ri, Ratio::Finite(2_000_000));
}

#[test]
fn partial_points_count_on_their_own_axis() {
    let pts = vec![pt(Some(-3_000_000), None), pt(None, Some(5_000_000)), pt(Some(1_000_000), Some(4_000_000))];
    let b = compute_bounding_box(&pts).unwrap();
    assert_eq!(b.width, 8_000_000);
    assert_eq!(b.height, 2_000_000);
    assert_eq!(b.area, 16_000_000);
}

#[test]
fn sides_and_area_are_never_negative() {
    let pts = vec![pt(Some(-7), Some(9)), pt(Some(-2), Some(-4)), pt(Some(-11), Some(0))];
    let b = compute_bounding_box(&pts).unwrap();
    assert_eq!(b.width, 18);
    assert_eq!(b.height, 26);
    assert_eq!(b.area, 1);
}

#[test]
fn single_point_gives_flat_box_with_infinite_ratios() {
    let b = compute_bounding_box(&[pt(Some(4), Some(-4))]).unwrap();
    assert_eq!(b.width, 0);
    assert_eq!(b.height, 0);
    assert_eq!(b.area, 0);
    assert_eq!(b.aspect, Ratio::Infinite);
    assert_eq!(b.aspect_ri, Ratio::Infinite);
}

#[test]
fn collinear_points_give_infinite_inverted_ratio() {
    let b = compute_bounding_box(&[pt(Some(2), Some(0)), pt(Some(2), Some(10))]).unwrap();
    assert_eq!(b.width, 0);
    assert_eq!(b.height, 20);
    assert_eq!(b.aspect, Ratio::Finite(0));
    assert_eq!(b.aspect_ri, Ratio::Infinite);
    let c = compute_bounding_box(&[pt(Some(0), Some(3)), pt(Some(10), Some(3))]).unwrap();
    assert_eq!(c.height, 0);
    assert_eq!(c.aspect, Ratio::Infinite);
    assert_eq!(c.aspect_ri, Ratio::Infinite);
}

#[test]
fn floorplan_box_pools_all_rooms() {
    let fp = plan(vec![
        room("r1", vec![pt(Some(0), Some(0)), pt(Some(1_000_000), Some(1_000_000))]),
        room("r2", vec![pt(Some(3_000_000), Some(2_000_000))]),
    ]);
    let b = BoundingBox::from_floorplan(&fp).unwrap();
    assert_eq!(b.width, 6_000_000);
    assert_eq!(b.height, 4_000_000);
}

#[test]
fn floorplan_without_points_is_empty_geometry() {
    let fp = plan(vec![room("r1", vec![])]);
    assert_eq!(BoundingBox::from_floorplan(&fp), Err(GeometryError::EmptyGeometry));
}

#[test]
fn room_box_uses_its_own_points() {
    let r2 = room("r2", vec![pt(Some(3_000_000), Some(2_000_000)), pt(Some(4_000_000), Some(2_500_000))]);
    let fp = plan(vec![room("r1", vec![pt(Some(0), Some(0))]), r2.clone()]);
    let b = BoundingBox::from_room(&fp, &r2).unwrap();
    assert_eq!(b.width, 2_000_000);
    assert_eq!(b.height, 1_000_000);
}

#[test]
fn room_of_another_plan_is_rejected() {
    let fp = plan(vec![room("r1", vec![pt(Some(0), Some(0))])]);
    let other = room("r1", vec![pt(Some(5), Some(5))]);
    assert_eq!(BoundingBox::from_room(&fp, &other), Err(GeometryError::RoomNotInFloorplan));
}

#[test]
fn room_without_points_is_empty_geometry() {
    let empty = room("r1", vec![]);
    let fp = plan(vec![empty.clone()]);
    assert_eq!(BoundingBox::from_room(&fp, &empty), Err(GeometryError::EmptyGeometry));
}

#[test]
fn merge_takes_present_coordinates() {
    let mut p = Transformation { x: Some(1), y: Some(2), z: Some(3) };
    p.merge_from(Some(&Transformation { x: None, y: Some(9), z: None }));
    assert_eq!(p, Transformation { x: Some(1), y: Some(9), z: Some(3) });
    p.merge_from(None);
    assert_eq!(p, Transformation { x: Some(1), y: Some(9), z: Some(3) });
}

#[test]
fn no_point_with_both_coordinates_is_empty_geometry() {
    let pts = vec![pt(Some(1_000_000), None), pt(None, Some(2_000_000))];
    assert_eq!(compute_bounding_box(&pts), Err(GeometryError::EmptyGeometry));
    let fp = plan(vec![room("r1", vec![pt(Some(1), None)]), room("r2", vec![pt(None, Some(2))])]);
    assert_eq!(BoundingBox::from_floorplan(&fp), Err(GeometryError::EmptyGeometry));
}
