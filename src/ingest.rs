use vstd::prelude::*;

use crate::error::StructureError;
use crate::floorplan::Floorplan;
use crate::records::{
    build_structure_records, floor_batch_fails_with, floor_buildable, floor_records_built, floorplans_within_limit,
    room_batch_fails_with, room_records_built, FloorStructureRecord, RoomStructureRecord,
};
use crate::similarity::{FloorStructureRepository, RoomStructureRepository};
use crate::store::upsert_all;

verus! {

/// Builds the floor and room records of a project and saves both lists. A
/// batch that fails to build saves nothing and leaves both stores as they
/// were.
pub fn ingest_project(
    floors: &mut FloorStructureRepository,
    rooms: &mut RoomStructureRepository,
    project_id: &str,
    floorplans: &[Floorplan],
) -> (r: Result<(), StructureError>)
    requires
        old(floors).wf(),
        old(rooms).wf(),
        floorplans_within_limit(floorplans@),
    ensures
        final(floors).wf(),
        final(rooms).wf(),
        match r {
            Ok(()) => exists|f: Seq<FloorStructureRecord>, rr: Seq<RoomStructureRecord>|
                floor_records_built(project_id@, floorplans@, f) && room_records_built(project_id@, floorplans@, rr)
                    && final(floors)@ == upsert_all(old(floors)@, f) && final(rooms)@ == upsert_all(old(rooms)@, rr),
            Err(e) => {
                &&& final(floors)@ == old(floors)@
                &&& final(rooms)@ == old(rooms)@
                &&& if forall|i: int| 0 <= i < floorplans@.len() ==> floor_buildable(#[trigger] floorplans@[i]) {
                    room_batch_fails_with(floorplans@, e)
                } else {
                    floor_batch_fails_with(floorplans@, e)
                }
            },
        },
{
    match build_structure_records(project_id, floorplans) {
        Ok((floor_records, room_records)) => {
            let ghost f = floor_records@;
            let ghost rr = room_records@;
            floors.save_all(floor_records);
            rooms.save_all(room_records);
            proof {
                assert(floor_records_built(project_id@, floorplans@, f) && room_records_built(project_id@, floorplans@, rr));
            }
            Ok(())
        },
        Err(e) => Err(e),
    }
}

} // verus!
