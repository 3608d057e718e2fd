use floor_structure::error::StructureError;
use floor_structure::fixed::Ratio;
use floor_structure::records::{FloorStructureRecord, RoomStructureRecord};
use floor_structure::similarity::{
    default_area_from, default_area_to, FloorStructureRepository, RoomStructureRepository,
};

fn floor(id: &str, project: &str, area: u64, room_count: i32, aspect: u64, rect: u64) -> FloorStructureRecord {
    FloorStructureRecord {
        id: id.to_string(),
        title: format!("floor {id}"),
        project_id: project.to_string(),
        area,
        room_count,
        bounding_box_width: 1,
        bounding_box_height: 1,
        bounding_box_area: 1,
        bounding_box_aspect: Ratio::Finite(aspect),
        rectangularity: rect,
    }
}

fn room(id: &str, project: &str, room_type: i32, area: u64, aspect_ri: u64, rect: u64) -> RoomStructureRecord {
    RoomStructureRecord {
        id: id.to_string(),
        project_id: project.to_string(),
        room_type,
        area,
        bounding_box_width: 1,
        bounding_box_height: 1,
        bounding_box_area: 1,
        bounding_box_aspect: Ratio::Finite(aspect_ri),
        bounding_box_aspect_ri: Ratio::Finite(aspect_ri),
        rectangularity: rect,
    }
}

fn scenario_floors() -> FloorStructureRepository {
    let mut repo = FloorStructureRepository::new();
    repo.save_all(vec![
        floor("F", "pf", 50_000_000, 4, 1_000_000, 800_000),
        floor("A", "pa", 50_000_000, 4, 1_000_000, 800_000),
        floor("B", "pb", 80_000_000, 4, 1_000_000, 800_000),
        floor("C", "pc", 50_000_000, 7, 1_000_000, 800_000),
    ]);
    repo
}

#[test]
fn default_window_is_85_to_115_percent() {
    assert_eq!(default_area_from(50_000_000), 42_500_000);
    assert_eq!(default_area_to(50_000_000), 57_500_000);
    assert_eq!(default_area_from(1), 1);
    assert_eq!(default_area_to(1), 1);
}

#[test]
fn reference_scenario_orders_a_before_c_without_b() {
    let repo = scenario_floors();
    let found = repo.find_similar_floors("F", None, None, 10).unwrap();
    let ids: Vec<&str> = found.iter().map(|f| f.id.as_str()).collect();
    assert_eq!(ids, vec!["A", "C"]);
    assert_eq!(found[0].score, 0);
    assert_eq!(found[1].score, 85_715);
    assert!(found[1].score > found[0].score);
    assert_eq!(found[0].title, "floor A");
    assert_eq!(found[0].area, 50_000_000);
}

#[test]
fn explicit_window_overrides_default() {
    let repo = scenario_floors();
    let found = repo.find_similar_floors("F", Some(40_000_000), Some(90_000_000), 10).unwrap();
    let ids: Vec<&str> = found.iter().map(|f| f.id.as_str()).collect();
    assert_eq!(ids, vec!["A", "C", "B"]);
}

#[test]
fn unknown_reference_is_not_found() {
    let repo = scenario_floors();
    assert_eq!(repo.find_similar_floors("nope", None, None, 10).unwrap_err(), StructureError::NotFound);
    let rooms = RoomStructureRepository::new();
    assert_eq!(rooms.find_similar_rooms("nope", None, None, 10).unwrap_err(), StructureError::NotFound);
}

#[test]
fn own_project_never_returned() {
    let mut repo = scenario_floors();
    repo.save_all(vec![floor("F2", "pf", 50_000_000, 4, 1_000_000, 800_000)]);
    let found = repo.find_similar_floors("F", None, None, 10).unwrap();
    assert!(found.iter().all(|f| f.project_id != "pf"));
}

#[test]
fn one_floor_per_project() {
    let mut repo = FloorStructureRepository::new();
    repo.save_all(vec![
        floor("R", "pr", 50_000_000, 4, 1_000_000, 800_000),
        floor("X", "pq", 52_000_000, 4, 1_000_000, 800_000),
        floor("Y", "pq", 50_000_000, 5, 1_000_000, 800_000),
        floor("Z", "pz", 53_000_000, 4, 1_000_000, 800_000),
    ]);
    let found = repo.find_similar_floors("R", None, None, 10).unwrap();
    let ids: Vec<&str> = found.iter().map(|f| f.id.as_str()).collect();
    // X scores 0.3*2/50 = 12000, Y scores 0.2*1/5 = 40000, Z scores 18000.
    assert_eq!(ids, vec!["X", "Z"]);
    assert_eq!(found[0].score, 12_000);
    assert_eq!(found[1].score, 18_000);
}

#[test]
fn rooms_of_one_project_all_returned() {
    let mut repo = RoomStructureRepository::new();
    repo.save_all(vec![
        room("R", "pr", 3, 10_000_000, 1_000_000, 500_000),
        room("X", "pq", 3, 10_000_000, 1_000_000, 500_000),
        room("Y", "pq", 3, 11_000_000, 1_000_000, 500_000),
    ]);
    let found = repo.find_similar_rooms("R", None, None, 10).unwrap();
    let ids: Vec<&str> = found.iter().map(|r| r.id.as_str()).collect();
    assert_eq!(ids, vec!["X", "Y"]);
    assert_eq!(found[0].score, 0);
    // 0.3 * 1 / 10 = 0.03
    assert_eq!(found[1].score, 30_000);
}

#[test]
fn room_type_filter_applies_for_known_types() {
    let mut repo = RoomStructureRepository::new();
    repo.save_all(vec![
        room("R", "pr", 3, 10_000_000, 1_000_000, 500_000),
        room("X", "pq", 4, 10_000_000, 1_000_000, 500_000),
        room("Y", "pz", 3, 10_000_000, 1_000_000, 500_000),
        room("U", "pu", 0, 10_000_000, 1_000_000, 500_000),
    ]);
    let found = repo.find_similar_rooms("R", None, None, 10).unwrap();
    let ids: Vec<&str> = found.iter().map(|r| r.id.as_str()).collect();
    assert_eq!(ids, vec!["Y"]);
    let untyped = repo.find_similar_rooms("U", None, None, 10).unwrap();
    let ids: Vec<&str> = untyped.iter().map(|r| r.id.as_str()).collect();
    assert_eq!(ids, vec!["R", "X", "Y"]);
}

#[test]
fn room_score_weights_terms() {
    let mut repo = RoomStructureRepository::new();
    repo.save_all(vec![
        room("R", "pr", 0, 4_000_000, 1_000_000, 500_000),
        room("S", "ps", 0, 4_400_000, 1_100_000, 550_000),
    ]);
    let found = repo.find_top_k_similar_rooms("pr", 4_000_000, 0, 10_000_000, 500_000, Ratio::Finite(1_000_000), None, 5);
    assert_eq!(found.len(), 1);
    // 0.3*0.4/5 + 0.5*0.1 + 0.2*0.05 = 0.024 + 0.05 + 0.01
    assert_eq!(found[0].score, 84_000);
}

#[test]
fn ties_are_broken_by_id() {
    let mut repo = FloorStructureRepository::new();
    repo.save_all(vec![
        floor("ref", "prj0", 50_000_000, 4, 1_000_000, 800_000),
        floor("m2", "prj2", 50_000_000, 4, 1_000_000, 800_000),
        floor("m1", "prj1", 50_000_000, 4, 1_000_000, 800_000),
        floor("m3", "prj3", 50_000_000, 4, 1_000_000, 800_000),
    ]);
    let found = repo.find_similar_floors("ref", None, None, 10).unwrap();
    let ids: Vec<&str> = found.iter().map(|f| f.id.as_str()).collect();
    assert_eq!(ids, vec!["m1", "m2", "m3"]);
}

#[test]
fn result_is_truncated_to_k() {
    let mut repo = FloorStructureRepository::new();
    repo.save_all(vec![
        floor("ref", "prj0", 50_000_000, 4, 1_000_000, 800_000),
        floor("m2", "prj2", 50_000_000, 4, 1_000_000, 800_000),
        floor("m1", "prj1", 51_000_000, 4, 1_000_000, 800_000),
        floor("m3", "prj3", 50_000_000, 4, 1_000_000, 800_000),
    ]);
    let found = repo.find_similar_floors("ref", None, None, 2).unwrap();
    let ids: Vec<&str> = found.iter().map(|f| f.id.as_str()).collect();
    assert_eq!(ids, vec!["m2", "m3"]);
    assert!(repo.find_similar_floors("ref", None, None, 0).unwrap().is_empty());
}

#[test]
fn no_passing_candidate_gives_empty_result() {
    let mut repo = FloorStructureRepository::new();
    repo.save_all(vec![
        floor("ref", "prj0", 50_000_000, 4, 1_000_000, 800_000),
        floor("far", "prj1", 50_000_000, 4, 2_000_000, 800_000),
        floor("loose", "prj2", 50_000_000, 4, 1_000_000, 950_000),
        floor("many", "prj3", 50_000_000, 8, 1_000_000, 800_000),
    ]);
    assert!(repo.find_similar_floors("ref", None, None, 10).unwrap().is_empty());
}

#[test]
fn infinite_aspect_matches_only_infinite() {
    let mut repo = FloorStructureRepository::new();
    let mut a = floor("ref", "prj0", 50_000_000, 4, 0, 0);
    a.bounding_box_aspect = Ratio::Infinite;
    let mut b = floor("flat", "prj1", 50_000_000, 4, 0, 0);
    b.bounding_box_aspect = Ratio::Infinite;
    let c = floor("square", "prj2", 50_000_000, 4, 1_000_000, 0);
    repo.save_all(vec![a, b, c]);
    let found = repo.find_similar_floors("ref", None, None, 10).unwrap();
    let ids: Vec<&str> = found.iter().map(|f| f.id.as_str()).collect();
    assert_eq!(ids, vec!["flat"]);
}

#[test]
fn repeated_queries_agree() {
    let repo = scenario_floors();
    let a = repo.find_similar_floors("F", None, None, 10).unwrap();
    let b = repo.find_similar_floors("F", None, None, 10).unwrap();
    let ka: Vec<(String, u128)> = a.iter().map(|f| (f.id.clone(), f.score)).collect();
    let kb: Vec<(String, u128)> = b.iter().map(|f| (f.id.clone(), f.score)).collect();
    assert_eq!(ka, kb);
}

#[test]
fn saving_twice_keeps_one_record_with_latest_values() {
    let mut repo = FloorStructureRepository::new();
    repo.save_all(vec![floor("x", "p", 1, 1, 1, 1)]);
    repo.save_all(vec![floor("x", "p", 2, 3, 4, 5)]);
    assert_eq!(repo.records().len(), 1);
    let got = repo.find_by_id("x").unwrap();
    assert_eq!(got.area, 2);
    assert_eq!(got.room_count, 3);
    assert_eq!(got.rectangularity, 5);
    assert!(repo.find_by_id("y").is_none());
}

#[test]
fn saving_nothing_changes_nothing() {
    let mut repo = RoomStructureRepository::new();
    repo.save_all(vec![room("r", "p", 1, 1, 1, 1)]);
    repo.save_all(vec![]);
    assert_eq!(repo.records().len(), 1);
    assert_eq!(repo.find_by_id("r").unwrap().area, 1);
}
