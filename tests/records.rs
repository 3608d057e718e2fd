use floor_structure::error::{FloorplanField, StructureError};
use floor_structure::fixed::Ratio;
use floor_structure::floorplan::{Floorplan, Room};
use floor_structure::geometry::Transformation;
use floor_structure::ingest::ingest_project;
use floor_structure::similarity::{FloorStructureRepository, RoomStructureRepository};
use floor_structure::records::{
    build_floor_structure_records, build_room_structure_records, build_structure_records,
    floor_rectangularity, make_record_id, room_rectangularity,
};

fn pt(x: i64, z: i64) -> Transformation {
    Transformation { x: Some(x), y: None, z: Some(z) }
}

fn square_room(archi_id: &str, side_half: i64, area: u64) -> Room {
    Room {
        archi_id: archi_id.to_string(),
        room_type: 2,
        area,
        inner_points: vec![pt(0, 0), pt(side_half, side_half)],
    }
}

fn plan(id: &str, archi: &str, area: u64, rooms: Vec<Room>) -> Floorplan {
    Floorplan {
        id: id.to_string(),
        archi_id: Some(archi.to_string()),
        title: Some(format!("title {id}")),
        area: Some(area),
        rooms: Some(rooms),
    }
}

#[test]
fn record_id_joins_project_and_archi_id() {
    assert_eq!(make_record_id("prj1", "a9"), "prj1_a9");
}

#[test]
fn floor_rectangularity_is_zero_without_box_area() {
    assert_eq!(floor_rectangularity(50_000_000, 0), 0);
    assert_eq!(room_rectangularity(50_000_000, 0), 0);
}

#[test]
fn floor_rectangularity_bridges_units() {
    // 50 m2 of plan over a 62.5e6 mm2 box.
    assert_eq!(floor_rectangularity(50_000_000, 62_500_000_000_000), 800_000);
}

#[test]
fn room_rectangularity_is_a_plain_ratio() {
    assert_eq!(room_rectangularity(3_000_000, 4_000_000), 750_000);
}

#[test]
fn rectangularity_stays_positive_for_positive_area() {
    assert_eq!(floor_rectangularity(1, u64::MAX), 1);
    assert_eq!(room_rectangularity(1, u64::MAX), 1);
}

#[test]
fn floor_records_carry_measures() {
    // Box of 5 m x 5 m in micro-millimetres: half-spread 2.5e9.
    let fp = plan("fp1", "f1", 20_000_000, vec![square_room("r1", 2_500_000_000, 1), square_room("r2", 1_000_000_000, 1)]);
    let v = build_floor_structure_records("prj1", &[fp]).unwrap();
    assert_eq!(v.len(), 1);
    let r = &v[0];
    assert_eq!(r.id, "prj1_f1");
    assert_eq!(r.title, "title fp1");
    assert_eq!(r.project_id, "prj1");
    assert_eq!(r.area, 20_000_000);
    assert_eq!(r.room_count, 2);
    assert_eq!(r.bounding_box_width, 5_000_000_000);
    assert_eq!(r.bounding_box_height, 5_000_000_000);
    assert_eq!(r.bounding_box_area, 25_000_000_000_000);
    assert_eq!(r.bounding_box_aspect, Ratio::Finite(1_000_000));
    assert_eq!(r.rectangularity, 800_000);
}

#[test]
fn missing_area_names_field_and_plan() {
    let mut fp = plan("fp7", "f7", 1, vec![square_room("r1", 5, 1)]);
    fp.area = None;
    let e = build_floor_structure_records("prj1", &[fp]).unwrap_err();
    assert_eq!(e, StructureError::MissingField { field: FloorplanField::Area, floorplan_id: "fp7".to_string() });
}

#[test]
fn missing_title_and_rooms_are_reported() {
    let mut a = plan("fa", "a", 1, vec![square_room("r1", 5, 1)]);
    a.title = None;
    assert_eq!(
        build_floor_structure_records("p", &[a]).unwrap_err(),
        StructureError::MissingField { field: FloorplanField::Title, floorplan_id: "fa".to_string() }
    );
    let mut b = plan("fb", "b", 1, vec![]);
    b.rooms = None;
    assert_eq!(
        build_floor_structure_records("p", &[b.clone()]).unwrap_err(),
        StructureError::MissingField { field: FloorplanField::Rooms, floorplan_id: "fb".to_string() }
    );
    assert_eq!(
        build_room_structure_records("p", &[b]).unwrap_err(),
        StructureError::MissingField { field: FloorplanField::Rooms, floorplan_id: "fb".to_string() }
    );
    let mut c = plan("fc", "c", 1, vec![square_room("r1", 5, 1)]);
    c.archi_id = None;
    assert_eq!(
        build_floor_structure_records("p", &[c]).unwrap_err(),
        StructureError::MissingField { field: FloorplanField::ArchiId, floorplan_id: "fc".to_string() }
    );
}

#[test]
fn plan_without_points_aborts_batch() {
    let good = plan("g", "g", 1, vec![square_room("r1", 5, 1)]);
    let bad = plan("b", "b", 1, vec![]);
    assert_eq!(build_floor_structure_records("p", &[good, bad]).unwrap_err(), StructureError::EmptyGeometry);
}

#[test]
fn room_records_follow_plans_in_order() {
    let f1 = plan("fp1", "f1", 1, vec![square_room("ra", 1_000_000_000, 3_000_000_000_000)]);
    let f2 = plan("fp2", "f2", 1, vec![square_room("rb", 500_000_000, 1), square_room("rc", 500_000_000, 0)]);
    let v = build_room_structure_records("prj9", &[f1, f2]).unwrap();
    let ids: Vec<&str> = v.iter().map(|r| r.id.as_str()).collect();
    assert_eq!(ids, vec!["prj9_ra", "prj9_rb", "prj9_rc"]);
    assert_eq!(v[0].room_type, 2);
    assert_eq!(v[0].bounding_box_width, 2_000_000_000);
    assert_eq!(v[0].bounding_box_area, 4_000_000_000_000);
    assert_eq!(v[0].bounding_box_aspect_ri, Ratio::Finite(1_000_000));
    assert_eq!(v[0].rectangularity, 750_000);
    assert_eq!(v[2].rectangularity, 0);
}

#[test]
fn room_without_points_aborts_room_batch() {
    let mut r = square_room("ra", 5, 1);
    r.inner_points.clear();
    let f = plan("fp1", "f1", 1, vec![square_room("ok", 5, 1), r]);
    assert_eq!(build_room_structure_records("p", &[f]).unwrap_err(), StructureError::EmptyGeometry);
}

#[test]
fn structure_batch_builds_both_lists() {
    let f = plan("fp1", "f1", 1_000_000, vec![square_room("ra", 5_000, 1), square_room("rb", 6_000, 1)]);
    let (floors, rooms) = build_structure_records("p", &[f]).unwrap();
    assert_eq!(floors.len(), 1);
    assert_eq!(rooms.len(), 2);
    let (none_f, none_r) = build_structure_records("p", &[]).unwrap();
    assert!(none_f.is_empty() && none_r.is_empty());
}

#[test]
fn ingestion_saves_both_lists() {
    let mut floors = FloorStructureRepository::new();
    let mut rooms = RoomStructureRepository::new();
    let f = plan("fp1", "f1", 1_000_000, vec![square_room("ra", 5_000, 1), square_room("rb", 6_000, 1)]);
    ingest_project(&mut floors, &mut rooms, "prj5", &[f.clone()]).unwrap();
    ingest_project(&mut floors, &mut rooms, "prj5", &[f]).unwrap();
    assert_eq!(floors.records().len(), 1);
    assert_eq!(rooms.records().len(), 2);
    assert_eq!(floors.find_by_id("prj5_f1").unwrap().room_count, 2);
    let mut bad = plan("fp2", "f2", 1, vec![]);
    bad.title = None;
    assert!(ingest_project(&mut floors, &mut rooms, "prj6", &[bad]).is_err());
    assert_eq!(floors.records().len(), 1);
    assert_eq!(rooms.records().len(), 2);
}
