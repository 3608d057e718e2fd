use vstd::prelude::*;

verus! {

/// How a floor plan is shown; `Hidden` when it is not shown.
#[derive(Clone, Copy, Debug, PartialEq, Eq, Structural)]
pub enum ShowFloorplan {
    Hidden,
    TwoD,
    ThreeD,
}

impl Default for ShowFloorplan {
    fn default() -> (r: ShowFloorplan)
        ensures
            r == ShowFloorplan::Hidden,
    {
        ShowFloorplan::Hidden
    }
}

/// The cross-section of a column.
#[derive(Clone, Copy, Debug, PartialEq, Eq, Structural)]
pub enum ColumnType {
    Cylinder,
    Rectangular,
}

impl ColumnType {
    /// The lower-case name of the cross-section.
    pub fn value(&self) -> (r: &'static str)
        ensures
            r@ == (match self {
                ColumnType::Cylinder => "cylinder"@,
                ColumnType::Rectangular => "rectangular"@,
            }),
    {
        match self {
            ColumnType::Cylinder => "cylinder",
            ColumnType::Rectangular => "rectangular",
        }
    }
}

/// The surface a finish is applied to.
#[derive(Clone, Copy, Debug, PartialEq, Eq, Structural)]
pub enum FinishTargetType {
    Floor,
    Ceiling,
    Wall,
}

/// Where a project imported from a map came from.
#[derive(Clone, Debug, Default)]
pub struct FromMap {
    pub map_fp_data_id: Option<String>,
    pub address_id: Option<String>,
    pub fp_data_id: Option<String>,
    pub map_floorplan_id: Option<String>,
}

impl FromMap {
    pub fn new(
        map_fp_data_id: Option<String>,
        address_id: Option<String>,
        fp_data_id: Option<String>,
        map_floorplan_id: Option<String>,
    ) -> (r: FromMap)
        ensures
            r.map_fp_data_id == map_fp_data_id,
            r.address_id == address_id,
            r.fp_data_id == fp_data_id,
            r.map_floorplan_id == map_floorplan_id,
    {
        FromMap { map_fp_data_id, address_id, fp_data_id, map_floorplan_id }
    }
}

} // verus!
