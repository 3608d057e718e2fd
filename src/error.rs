use vstd::prelude::*;

verus! {

/// Why a bounding box could not be computed.
#[derive(Clone, Copy, Debug, PartialEq, Eq, Structural)]
pub enum GeometryError {
    /// No usable point: the point list is empty, or one axis has no
    /// coordinate at all.
    EmptyGeometry,
    /// The room handed in is not one of the floor plan's rooms.
    RoomNotInFloorplan,
}

/// A floor-plan attribute that a structure record cannot be built without.
#[derive(Clone, Copy, Debug, PartialEq, Eq, Structural)]
pub enum FloorplanField {
    ArchiId,
    Area,
    Title,
    Rooms,
}

/// Failures of record building and of lookups in a structure store.
#[derive(Clone, Debug, PartialEq, Eq)]
pub enum StructureError {
    /// A required floor-plan attribute is absent.
    MissingField { field: FloorplanField, floorplan_id: String },
    /// No usable points to measure.
    EmptyGeometry,
    /// A room was measured against a floor plan it does not belong to.
    RoomNotInFloorplan,
    /// No record is stored under the requested id.
    NotFound,
}

/// Failures reported to callers of the service.
#[derive(Clone, Debug)]
pub enum ApiError {
    /// Nothing exists under the requested identifier.
    NotFound { message: String },
    /// Anything else; the message is for logs, not for callers.
    Internal { message: String },
}

impl ApiError {
    pub fn not_found(message: String) -> (r: ApiError)
        ensures
            r matches ApiError::NotFound { message: m } && m == message,
    {
        ApiError::NotFound { message }
    }

    pub fn internal(message: String) -> (r: ApiError)
        ensures
            r matches ApiError::Internal { message: m } && m == message,
    {
        ApiError::Internal { message }
    }
}

} // verus!
