use vstd::prelude::*;

use crate::error::{FloorplanField, StructureError};
use crate::fixed::{div_up, Ratio, SCALE};
use crate::floorplan::{
    floor_points, floorplan_within_limit, room_in_floorplan, rooms_of, same_room,
    Floorplan, Room,
};
use crate::geometry::{spec_bounding_box, BoundingBox};
use crate::store::Keyed;

verus! {

/// The comparable features of one floor plan of one project. Every measure is
/// in fixed-point units; `rectangularity` relates the plan area to the area of
/// the bounding box.
#[derive(Clone, Debug)]
pub struct FloorStructureRecord {
    pub id: String,
    pub title: String,
    pub project_id: String,
    pub area: u64,
    pub room_count: i32,
    pub bounding_box_width: u64,
    pub bounding_box_height: u64,
    pub bounding_box_area: u64,
    pub bounding_box_aspect: Ratio,
    pub rectangularity: u64,
}

/// The comparable features of one room of one floor plan.
#[derive(Clone, Debug)]
pub struct RoomStructureRecord {
    pub id: String,
    pub project_id: String,
    pub room_type: i32,
    pub area: u64,
    pub bounding_box_width: u64,
    pub bounding_box_height: u64,
    pub bounding_box_area: u64,
    pub bounding_box_aspect: Ratio,
    pub bounding_box_aspect_ri: Ratio,
    pub rectangularity: u64,
}

impl Keyed for FloorStructureRecord {
    open spec fn key(&self) -> Seq<char> {
        self.id@
    }

    fn key_str(&self) -> (r: &str) {
        self.id.as_str()
    }

    fn duplicate(&self) -> (r: FloorStructureRecord) {
        FloorStructureRecord {
            id: self.id.clone(),
            title: self.title.clone(),
            project_id: self.project_id.clone(),
            area: self.area,
            room_count: self.room_count,
            bounding_box_width: self.bounding_box_width,
            bounding_box_height: self.bounding_box_height,
            bounding_box_area: self.bounding_box_area,
            bounding_box_aspect: self.bounding_box_aspect,
            rectangularity: self.rectangularity,
        }
    }
}

impl Keyed for RoomStructureRecord {
    open spec fn key(&self) -> Seq<char> {
        self.id@
    }

    fn key_str(&self) -> (r: &str) {
        self.id.as_str()
    }

    fn duplicate(&self) -> (r: RoomStructureRecord) {
        RoomStructureRecord {
            id: self.id.clone(),
            project_id: self.project_id.clone(),
            room_type: self.room_type,
            area: self.area,
            bounding_box_width: self.bounding_box_width,
            bounding_box_height: self.bounding_box_height,
            bounding_box_area: self.bounding_box_area,
            bounding_box_aspect: self.bounding_box_aspect,
            bounding_box_aspect_ri: self.bounding_box_aspect_ri,
            rectangularity: self.rectangularity,
        }
    }
}

/// A non-negative value, held at the 64-bit maximum when it is larger.
pub open spec fn saturate(v: int) -> u64 {
    if v > u64::MAX {
        u64::MAX
    } else {
        v as u64
    }
}

/// Plan area over bounding-box area for a floor, scaled by one million to
/// bridge the plan's unit and the square of the coordinates' unit; zero for a
/// box without area.
pub open spec fn spec_floor_rectangularity(area: int, bounding_box_area: int) -> u64 {
    if bounding_box_area > 0 {
        saturate(div_up(area * (SCALE * SCALE), bounding_box_area))
    } else {
        0
    }
}

/// Room area over bounding-box area; zero for a box without area.
pub open spec fn spec_room_rectangularity(area: int, bounding_box_area: int) -> u64 {
    if bounding_box_area > 0 {
        saturate(div_up(area * SCALE, bounding_box_area))
    } else {
        0
    }
}

proof fn lemma_div_up_positive(a: int, b: int)
    requires
        a >= 1,
        b >= 1,
    ensures
        div_up(a, b) >= 1,
{
    assert((a + b - 1) / b >= 1) by (nonlinear_arith)
        requires
            a >= 1,
            b >= 1,
    ;
}

/// `num * factor / den` rounded up and saturated, for `den > 0`.
fn scaled_quotient(num: u64, factor: u128, den: u64) -> (r: u64)
    requires
        den > 0,
        factor == SCALE || factor == SCALE * SCALE,
    ensures
        r == saturate(div_up(num * factor, den as int)),
{
    proof {
        assert(num * factor <= 18_446_744_073_709_551_615 * 1_000_000_000_000) by (nonlinear_arith)
            requires
                0 <= num <= 18_446_744_073_709_551_615,
                0 <= factor <= 1_000_000_000_000,
        ;
    }
    let scaled: u128 = (num as u128) * factor;
    let q: u128 = (scaled + (den as u128) - 1) / (den as u128);
    if q > u64::MAX as u128 {
        u64::MAX
    } else {
        q as u64
    }
}

/// The rectangularity of a floor: zero exactly when the box has no area, and
/// positive whenever both the plan area and the box area are.
pub fn floor_rectangularity(area: u64, bounding_box_area: u64) -> (r: u64)
    ensures
        r == spec_floor_rectangularity(area as int, bounding_box_area as int),
        bounding_box_area == 0 ==> r == 0,
        bounding_box_area > 0 && area > 0 ==> r > 0,
{
    if bounding_box_area == 0 {
        return 0;
    }
    proof {
        if area > 0 {
            assert(area * (SCALE * SCALE) >= 1) by (nonlinear_arith)
                requires
                    area >= 1,
            ;
            lemma_div_up_positive(area * (SCALE * SCALE), bounding_box_area as int);
        }
    }
    scaled_quotient(area, 1_000_000_000_000u128, bounding_box_area)
}

/// The rectangularity of a room: zero exactly when the box has no area, and
/// positive whenever both the room area and the box area are.
pub fn room_rectangularity(area: u64, bounding_box_area: u64) -> (r: u64)
    ensures
        r == spec_room_rectangularity(area as int, bounding_box_area as int),
        bounding_box_area == 0 ==> r == 0,
        bounding_box_area > 0 && area > 0 ==> r > 0,
{
    if bounding_box_area == 0 {
        return 0;
    }
    proof {
        if area > 0 {
            lemma_div_up_positive(area * SCALE, bounding_box_area as int);
        }
    }
    scaled_quotient(area, 1_000_000u128, bounding_box_area)
}

/// The storage key of a floor or a room: the project id and the archi id
/// joined by an underscore.
pub open spec fn record_id(project_id: Seq<char>, archi_id: Seq<char>) -> Seq<char> {
    project_id + seq!['_'] + archi_id
}

/// Builds the storage key of a floor or a room.
pub fn make_record_id(project_id: &str, archi_id: &str) -> (r: String)
    ensures
        r@ == record_id(project_id@, archi_id@),
{
    let mut id = project_id.to_owned();
    id.append("_");
    id.append(archi_id);
    proof {
        reveal_strlit("_");
    }
    id
}

/// The first required attribute that a floor plan lacks, if any.
pub open spec fn floor_missing(fp: Floorplan) -> Option<FloorplanField> {
    if fp.area is None {
        Some(FloorplanField::Area)
    } else if fp.title is None {
        Some(FloorplanField::Title)
    } else if fp.rooms is None {
        Some(FloorplanField::Rooms)
    } else if fp.archi_id is None {
        Some(FloorplanField::ArchiId)
    } else {
        None
    }
}

/// A floor plan has every required attribute and measurable geometry.
pub open spec fn floor_buildable(fp: Floorplan) -> bool {
    floor_missing(fp) is None && spec_bounding_box(floor_points(fp)) is Ok
}

/// `e` is the error that reports what is wrong with the floor plan `fp`.
pub open spec fn floor_error_matches(e: StructureError, fp: Floorplan) -> bool {
    match e {
        StructureError::MissingField { field, floorplan_id } => floor_missing(fp) == Some(field)
            && floorplan_id@ == fp.id@,
        StructureError::EmptyGeometry => floor_missing(fp) is None && spec_bounding_box(floor_points(fp)) is Err,
        _ => false,
    }
}

/// `rec` is the floor record that the project `p` gets for the plan `fp`.
pub open spec fn floor_record_matches(p: Seq<char>, fp: Floorplan, rec: FloorStructureRecord) -> bool {
    let b = spec_bounding_box(floor_points(fp))->Ok_0;
    &&& rec.id@ == record_id(p, fp.archi_id->0@)
    &&& rec.title@ == fp.title->0@
    &&& rec.project_id@ == p
    &&& rec.area == fp.area->0
    &&& rec.room_count == rooms_of(fp).len()
    &&& rec.bounding_box_width == b.width
    &&& rec.bounding_box_height == b.height
    &&& rec.bounding_box_area == b.area
    &&& rec.bounding_box_aspect == b.aspect
    &&& rec.rectangularity == spec_floor_rectangularity(fp.area->0 as int, b.area as int)
}

/// The floor records of a batch: one per plan, in order, when every plan is
/// buildable.
pub open spec fn floor_records_built(p: Seq<char>, fps: Seq<Floorplan>, v: Seq<FloorStructureRecord>) -> bool {
    &&& forall|i: int| 0 <= i < fps.len() ==> floor_buildable(#[trigger] fps[i])
    &&& v.len() == fps.len()
    &&& forall|i: int| 0 <= i < fps.len() ==> floor_record_matches(p, #[trigger] fps[i], v[i])
}

/// The floor batch fails with `e`: the first plan that is not buildable says why.
pub open spec fn floor_batch_fails_with(fps: Seq<Floorplan>, e: StructureError) -> bool {
    exists|i: int|
        0 <= i < fps.len() && (forall|j: int| 0 <= j < i ==> floor_buildable(#[trigger] fps[j]))
            && !floor_buildable(#[trigger] fps[i]) && floor_error_matches(e, fps[i])
}

/// What a batch of floor plans may hold: coordinates within the limit and a
/// room count that fits a record.
pub open spec fn floorplans_within_limit(fps: Seq<Floorplan>) -> bool {
    forall|i: int|
        0 <= i < fps.len() ==> floorplan_within_limit(#[trigger] fps[i]) && rooms_of(fps[i]).len() <= i32::MAX
}

/// Builds one floor record per floor plan, in order. The first plan that
/// lacks its area, title, room list or archi id fails the whole batch with
/// `MissingField`; the first without measurable points fails it with
/// `EmptyGeometry`.
pub fn build_floor_structure_records(project_id: &str, floorplans: &[Floorplan]) -> (r: Result<
    Vec<FloorStructureRecord>,
    StructureError,
>)
    requires
        floorplans_within_limit(floorplans@),
    ensures
        match r {
            Ok(v) => floor_records_built(project_id@, floorplans@, v@),
            Err(e) => floor_batch_fails_with(floorplans@, e),
        },
{
    let mut records: Vec<FloorStructureRecord> = Vec::new();
    let mut i: usize = 0;
    while i < floorplans.len()
        invariant
            floorplans_within_limit(floorplans@),
            i <= floorplans@.len(),
            records@.len() == i,
            forall|j: int| 0 <= j < i ==> floor_buildable(#[trigger] floorplans@[j]),
            forall|j: int| 0 <= j < i ==> floor_record_matches(project_id@, #[trigger] floorplans@[j], records@[j]),
        decreases floorplans.len() - i,
    {
        let fp = &floorplans[i];
        assert(floorplan_within_limit(floorplans@[i as int]));
        let area = match fp.area {
            Some(a) => a,
            None => {
                let e = StructureError::MissingField { field: FloorplanField::Area, floorplan_id: fp.id.clone() };
                assert(floor_error_matches(e, floorplans@[i as int]));
                return Err(e);
            },
        };
        let title = match &fp.title {
            Some(t) => t.clone(),
            None => {
                let e = StructureError::MissingField { field: FloorplanField::Title, floorplan_id: fp.id.clone() };
                assert(floor_error_matches(e, floorplans@[i as int]));
                return Err(e);
            },
        };
        let room_count = match &fp.rooms {
            Some(rooms) => rooms.len() as i32,
            None => {
                let e = StructureError::MissingField { field: FloorplanField::Rooms, floorplan_id: fp.id.clone() };
                assert(floor_error_matches(e, floorplans@[i as int]));
                return Err(e);
            },
        };
        let record_id = match &fp.archi_id {
            Some(archi_id) => make_record_id(project_id, archi_id.as_str()),
            None => {
                let e = StructureError::MissingField { field: FloorplanField::ArchiId, floorplan_id: fp.id.clone() };
                assert(floor_error_matches(e, floorplans@[i as int]));
                return Err(e);
            },
        };
        let b = match BoundingBox::from_floorplan(fp) {
            Ok(b) => b,
            Err(_) => {
                let e = StructureError::EmptyGeometry;
                assert(floor_error_matches(e, floorplans@[i as int]));
                return Err(e);
            },
        };
        let rectangularity = floor_rectangularity(area, b.area);
        records.push(
            FloorStructureRecord {
                id: record_id,
                title,
                project_id: project_id.to_owned(),
                area,
                room_count,
                bounding_box_width: b.width,
                bounding_box_height: b.height,
                bounding_box_area: b.area,
                bounding_box_aspect: b.aspect,
                rectangularity,
            },
        );
        assert(floor_record_matches(project_id@, floorplans@[i as int], records@[i as int]));
        i = i + 1;
    }
    Ok(records)
}

/// A room can be measured.
pub open spec fn room_buildable(room: Room) -> bool {
    spec_bounding_box(room.inner_points@) is Ok
}

/// A floor plan has a room list and every room in it can be measured.
pub open spec fn floor_rooms_buildable(fp: Floorplan) -> bool {
    fp.rooms is Some && forall|k: int| 0 <= k < rooms_of(fp).len() ==> room_buildable(#[trigger] rooms_of(fp)[k])
}

/// `e` is the error that reports what is wrong with the rooms of `fp`.
pub open spec fn room_error_matches(e: StructureError, fp: Floorplan) -> bool {
    match e {
        StructureError::MissingField { field, floorplan_id } => fp.rooms is None && field == FloorplanField::Rooms
            && floorplan_id@ == fp.id@,
        StructureError::EmptyGeometry => fp.rooms is Some && !floor_rooms_buildable(fp),
        _ => false,
    }
}

/// All rooms of a batch of floor plans, plan after plan.
pub open spec fn all_rooms(fps: Seq<Floorplan>) -> Seq<Room>
    decreases fps.len(),
{
    if fps.len() == 0 {
        Seq::empty()
    } else {
        all_rooms(fps.drop_last()) + rooms_of(fps.last())
    }
}

/// `rec` is the room record that the project `p` gets for `room`.
pub open spec fn room_record_matches(p: Seq<char>, room: Room, rec: RoomStructureRecord) -> bool {
    let b = spec_bounding_box(room.inner_points@)->Ok_0;
    &&& rec.id@ == record_id(p, room.archi_id@)
    &&& rec.project_id@ == p
    &&& rec.room_type == room.room_type
    &&& rec.area == room.area
    &&& rec.bounding_box_width == b.width
    &&& rec.bounding_box_height == b.height
    &&& rec.bounding_box_area == b.area
    &&& rec.bounding_box_aspect == b.aspect
    &&& rec.bounding_box_aspect_ri == b.aspect_ri
    &&& rec.rectangularity == spec_room_rectangularity(room.area as int, b.area as int)
}

/// The room records of a batch: one per room of every plan, in order, when
/// every plan has measurable rooms.
pub open spec fn room_records_built(p: Seq<char>, fps: Seq<Floorplan>, v: Seq<RoomStructureRecord>) -> bool {
    &&& forall|i: int| 0 <= i < fps.len() ==> floor_rooms_buildable(#[trigger] fps[i])
    &&& v.len() == all_rooms(fps).len()
    &&& forall|m: int| 0 <= m < v.len() ==> room_record_matches(p, #[trigger] all_rooms(fps)[m], v[m])
}

/// The room batch fails with `e`: the first plan whose rooms cannot all be
/// measured says why.
pub open spec fn room_batch_fails_with(fps: Seq<Floorplan>, e: StructureError) -> bool {
    exists|i: int|
        0 <= i < fps.len() && (forall|j: int| 0 <= j < i ==> floor_rooms_buildable(#[trigger] fps[j]))
            && !floor_rooms_buildable(#[trigger] fps[i]) && room_error_matches(e, fps[i])
}

/// Builds one room record per room of every floor plan, plan after plan. A
/// plan without a room list fails the whole batch with `MissingField`; a room
/// without measurable points fails it with `EmptyGeometry`.
pub fn build_room_structure_records(project_id: &str, floorplans: &[Floorplan]) -> (r: Result<
    Vec<RoomStructureRecord>,
    StructureError,
>)
    requires
        floorplans_within_limit(floorplans@),
    ensures
        match r {
            Ok(v) => room_records_built(project_id@, floorplans@, v@),
            Err(e) => room_batch_fails_with(floorplans@, e),
        },
{
    let mut records: Vec<RoomStructureRecord> = Vec::new();
    let mut i: usize = 0;
    while i < floorplans.len()
        invariant
            floorplans_within_limit(floorplans@),
            i <= floorplans@.len(),
            forall|j: int| 0 <= j < i ==> floor_rooms_buildable(#[trigger] floorplans@[j]),
            records@.len() == all_rooms(floorplans@.subrange(0, i as int)).len(),
            forall|m: int|
                0 <= m < records@.len() ==> room_record_matches(
                    project_id@,
                    #[trigger] all_rooms(floorplans@.subrange(0, i as int))[m],
                    records@[m],
                ),
        decreases floorplans.len() - i,
    {
        let fp = &floorplans[i];
        assert(floorplan_within_limit(floorplans@[i as int]));
        let rooms = match &fp.rooms {
            Some(rooms) => rooms,
            None => {
                let e = StructureError::MissingField { field: FloorplanField::Rooms, floorplan_id: fp.id.clone() };
                assert(room_error_matches(e, floorplans@[i as int]));
                return Err(e);
            },
        };
        let ghost done = all_rooms(floorplans@.subrange(0, i as int));
        let mut k: usize = 0;
        while k < rooms.len()
            invariant
                i < floorplans@.len(),
                *fp == floorplans@[i as int],
                fp.rooms == Some(*rooms),
                forall|j: int| 0 <= j < i ==> floor_rooms_buildable(#[trigger] floorplans@[j]),
                floorplan_within_limit(*fp),
                k <= rooms@.len(),
                forall|j: int| 0 <= j < k ==> room_buildable(#[trigger] rooms@[j]),
                records@.len() == done.len() + k,
                forall|m: int|
                    0 <= m < records@.len() ==> room_record_matches(
                        project_id@,
                        #[trigger] (done + rooms@.subrange(0, k as int))[m],
                        records@[m],
                    ),
            decreases rooms.len() - k,
        {
            let room = &rooms[k];
            proof {
                assert(rooms_of(*fp)[k as int] == *room);
                assert(same_room(rooms_of(*fp)[k as int], *room));
                assert(room_in_floorplan(*fp, *room));
            }
            let b = match BoundingBox::from_room(fp, room) {
                Ok(b) => b,
                Err(_) => {
                    let e = StructureError::EmptyGeometry;
                    proof {
                        assert(!room_buildable(rooms_of(*fp)[k as int]));
                        assert(room_error_matches(e, floorplans@[i as int]));
                    }
                    return Err(e);
                },
            };
            let rectangularity = room_rectangularity(room.area, b.area);
            let ghost before = records@;
            records.push(
                RoomStructureRecord {
                    id: make_record_id(project_id, room.archi_id.as_str()),
                    project_id: project_id.to_owned(),
                    room_type: room.room_type,
                    area: room.area,
                    bounding_box_width: b.width,
                    bounding_box_height: b.height,
                    bounding_box_area: b.area,
                    bounding_box_aspect: b.aspect,
                    bounding_box_aspect_ri: b.aspect_ri,
                    rectangularity,
                },
            );
            proof {
                let prev = done + rooms@.subrange(0, k as int);
                let next = done + rooms@.subrange(0, k + 1);
                assert(next =~= prev.push(*room));
                assert forall|m: int| 0 <= m < records@.len() implies room_record_matches(
                    project_id@,
                    #[trigger] next[m],
                    records@[m],
                ) by {
                    if m < before.len() {
                        assert(next[m] == prev[m]);
                        assert(records@[m] == before[m]);
                    }
                }
            }
            k = k + 1;
        }
        proof {
            let next = floorplans@.subrange(0, i + 1);
            assert(next.drop_last() =~= floorplans@.subrange(0, i as int));
            assert(next.last() == *fp);
            assert(rooms@.subrange(0, k as int) =~= rooms@);
            assert(all_rooms(next) == done + rooms_of(*fp));
            assert(floor_rooms_buildable(floorplans@[i as int]));
        }
        i = i + 1;
    }
    proof {
        assert(floorplans@.subrange(0, floorplans@.len() as int) =~= floorplans@);
    }
    Ok(records)
}

/// Builds all floor records and then all room records of a project. Any
/// failure aborts the whole batch; floor plans are checked before rooms.
pub fn build_structure_records(project_id: &str, floorplans: &[Floorplan]) -> (r: Result<
    (Vec<FloorStructureRecord>, Vec<RoomStructureRecord>),
    StructureError,
>)
    requires
        floorplans_within_limit(floorplans@),
    ensures
        match r {
            Ok((f, rr)) => floor_records_built(project_id@, floorplans@, f@) && room_records_built(
                project_id@,
                floorplans@,
                rr@,
            ),
            Err(e) => if forall|i: int| 0 <= i < floorplans@.len() ==> floor_buildable(#[trigger] floorplans@[i]) {
                room_batch_fails_with(floorplans@, e)
            } else {
                floor_batch_fails_with(floorplans@, e)
            },
        },
{
    let floors = build_floor_structure_records(project_id, floorplans)?;
    let rooms = build_room_structure_records(project_id, floorplans)?;
    Ok((floors, rooms))
}

} // verus!
