use vstd::prelude::*;

use crate::error::GeometryError;
use crate::geometry::{
    compute_bounding_box, points_within_limit, spec_bounding_box, BoundingBox, Transformation,
};

verus! {

/// A room of a floor plan: its identity, its category code, its declared
/// area (fixed-point, in the unit of its bounding box's area) and the inner
/// boundary of its outline.
#[derive(Clone, Debug)]
pub struct Room {
    pub archi_id: String,
    pub room_type: i32,
    pub area: u64,
    pub inner_points: Vec<Transformation>,
}

/// One floor plan of a project. `area` is the declared plan area in
/// fixed-point units.
#[derive(Clone, Debug)]
pub struct Floorplan {
    pub id: String,
    pub archi_id: Option<String>,
    pub title: Option<String>,
    pub area: Option<u64>,
    pub rooms: Option<Vec<Room>>,
}

/// Two rooms are the same room when every attribute agrees.
pub open spec fn same_room(a: Room, b: Room) -> bool {
    &&& a.archi_id@ == b.archi_id@
    &&& a.room_type == b.room_type
    &&& a.area == b.area
    &&& a.inner_points@ == b.inner_points@
}

/// The rooms of a floor plan; none when the list is absent.
pub open spec fn rooms_of(fp: Floorplan) -> Seq<Room> {
    match fp.rooms {
        Some(rs) => rs@,
        None => Seq::empty(),
    }
}

/// Whether `room` is one of the rooms of `fp`.
pub open spec fn room_in_floorplan(fp: Floorplan, room: Room) -> bool {
    fp.rooms is Some && exists|i: int| 0 <= i < rooms_of(fp).len() && same_room(#[trigger] rooms_of(fp)[i], room)
}

/// The inner boundary points of all rooms, room after room.
pub open spec fn rooms_points(rooms: Seq<Room>) -> Seq<Transformation>
    decreases rooms.len(),
{
    if rooms.len() == 0 {
        Seq::empty()
    } else {
        rooms_points(rooms.drop_last()) + rooms.last().inner_points@
    }
}

/// The pool of points that measures a whole floor plan.
pub open spec fn floor_points(fp: Floorplan) -> Seq<Transformation> {
    rooms_points(rooms_of(fp))
}

/// Every coordinate of every room lies within the coordinate limit.
pub open spec fn floorplan_within_limit(fp: Floorplan) -> bool {
    forall|k: int| 0 <= k < rooms_of(fp).len() ==> points_within_limit(#[trigger] rooms_of(fp)[k].inner_points@)
}

/// The bounding box of a room measured against a floor plan.
pub open spec fn spec_room_box(fp: Floorplan, room: Room) -> Result<BoundingBox, GeometryError> {
    if !room_in_floorplan(fp, room) {
        Err(GeometryError::RoomNotInFloorplan)
    } else if room.inner_points@.len() == 0 {
        Err(GeometryError::EmptyGeometry)
    } else {
        spec_bounding_box(room.inner_points@)
    }
}

pub proof fn lemma_rooms_points_within_limit(rooms: Seq<Room>)
    requires
        forall|k: int| 0 <= k < rooms.len() ==> points_within_limit(#[trigger] rooms[k].inner_points@),
    ensures
        points_within_limit(rooms_points(rooms)),
    decreases rooms.len(),
{
    if rooms.len() > 0 {
        let init = rooms.drop_last();
        assert forall|k: int| 0 <= k < init.len() implies points_within_limit(#[trigger] init[k].inner_points@) by {
            assert(init[k] == rooms[k]);
        }
        lemma_rooms_points_within_limit(init);
        assert(points_within_limit(rooms[rooms.len() - 1].inner_points@));
        let a = rooms_points(init);
        let b = rooms.last().inner_points@;
        assert forall|i: int| 0 <= i < (a + b).len() implies crate::geometry::point_within_limit(#[trigger] (a + b)[i]) by {
            if i < a.len() {
                assert((a + b)[i] == a[i]);
            } else {
                assert((a + b)[i] == b[i - a.len()]);
            }
        }
    }
}

fn same_coord(a: Option<i64>, b: Option<i64>) -> (r: bool)
    ensures
        r == (a == b),
{
    match (a, b) {
        (Some(v), Some(w)) => v == w,
        (None, None) => true,
        _ => false,
    }
}

fn same_point(a: &Transformation, b: &Transformation) -> (r: bool)
    ensures
        r == (*a == *b),
{
    same_coord(a.x, b.x) && same_coord(a.y, b.y) && same_coord(a.z, b.z)
}

impl Room {
    /// Whether `other` is the same room, attribute by attribute.
    pub fn same_as(&self, other: &Room) -> (r: bool)
        ensures
            r == same_room(*self, *other),
    {
        if self.archi_id != other.archi_id || self.room_type != other.room_type || self.area != other.area {
            return false;
        }
        let n = self.inner_points.len();
        if n != other.inner_points.len() {
            return false;
        }
        let mut i: usize = 0;
        while i < n
            invariant
                n == self.inner_points@.len(),
                n == other.inner_points@.len(),
                i <= n,
                forall|j: int| 0 <= j < i ==> self.inner_points@[j] == other.inner_points@[j],
            decreases n - i,
        {
            if !same_point(&self.inner_points[i], &other.inner_points[i]) {
                return false;
            }
            i = i + 1;
        }
        proof {
            assert(self.inner_points@ =~= other.inner_points@);
        }
        true
    }
}

impl BoundingBox {
    /// Measures a whole floor plan over the inner boundary points of all of
    /// its rooms; `EmptyGeometry` when no point of that pool has both an `x`
    /// and a `z`.
    pub fn from_floorplan(floorplan: &Floorplan) -> (r: Result<BoundingBox, GeometryError>)
        requires
            floorplan_within_limit(*floorplan),
        ensures
            r == spec_bounding_box(floor_points(*floorplan)),
            floor_points(*floorplan).len() == 0 ==> r == Err::<BoundingBox, GeometryError>(
                GeometryError::EmptyGeometry,
            ),
    {
        let mut pool: Vec<Transformation> = Vec::new();
        match &floorplan.rooms {
            Some(rooms) => {
                let mut k: usize = 0;
                while k < rooms.len()
                    invariant
                        floorplan.rooms == Some(*rooms),
                        k <= rooms@.len(),
                        pool@ == rooms_points(rooms@.subrange(0, k as int)),
                    decreases rooms.len() - k,
                {
                    let points = &rooms[k].inner_points;
                    let ghost before = pool@;
                    let mut j: usize = 0;
                    while j < points.len()
                        invariant
                            k < rooms@.len(),
                            *points == rooms@[k as int].inner_points,
                            j <= points@.len(),
                            pool@ == before + points@.subrange(0, j as int),
                        decreases points.len() - j,
                    {
                        pool.push(points[j]);
                        proof {
                            assert(points@.subrange(0, j + 1) =~= points@.subrange(0, j as int).push(points@[j as int]));
                        }
                        j = j + 1;
                    }
                    proof {
                        let next = rooms@.subrange(0, k + 1);
                        assert(next.drop_last() =~= rooms@.subrange(0, k as int));
                        assert(points@.subrange(0, j as int) =~= points@);
                        assert(pool@ =~= rooms_points(next));
                    }
                    k = k + 1;
                }
                proof {
                    assert(rooms@.subrange(0, rooms@.len() as int) =~= rooms@);
                }
            },
            None => {},
        }
        proof {
            lemma_rooms_points_within_limit(rooms_of(*floorplan));
        }
        compute_bounding_box(pool.as_slice())
    }

    /// Measures one room of a floor plan over its own inner boundary points:
    /// `RoomNotInFloorplan` when it is not one of the plan's rooms,
    /// `EmptyGeometry` when it has no point, or no point with both an `x` and
    /// a `z`.
    pub fn from_room(floorplan: &Floorplan, room: &Room) -> (r: Result<BoundingBox, GeometryError>)
        requires
            points_within_limit(room.inner_points@),
        ensures
            r == spec_room_box(*floorplan, *room),
    {
        let member = match &floorplan.rooms {
            Some(rooms) => {
                let mut found = false;
                let mut i: usize = 0;
                while i < rooms.len()
                    invariant
                        floorplan.rooms == Some(*rooms),
                        i <= rooms@.len(),
                        found == exists|j: int| 0 <= j < i && same_room(#[trigger] rooms@[j], *room),
                    decreases rooms.len() - i,
                {
                    if rooms[i].same_as(room) {
                        found = true;
                    }
                    i = i + 1;
                }
                proof {
                    assert(rooms_of(*floorplan) == rooms@);
                    if found {
                        let j = choose|j: int| 0 <= j < i && same_room(#[trigger] rooms@[j], *room);
                        assert(same_room(rooms_of(*floorplan)[j], *room));
                    }
                }
                found
            },
            None => false,
        };
        assert(member == room_in_floorplan(*floorplan, *room));
        if !member {
            return Err(GeometryError::RoomNotInFloorplan);
        }
        if room.inner_points.len() == 0 {
            return Err(GeometryError::EmptyGeometry);
        }
        compute_bounding_box(room.inner_points.as_slice())
    }
}

} // verus!
