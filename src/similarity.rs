use vstd::prelude::*;

use crate::error::StructureError;
use crate::fixed::{div_up, lemma_div_up_bounds, Ratio, SCALE};
use crate::ranking::{
    key_lt, keys_of, lemma_ranking_distinct_projects, lemma_ranking_selectable, lemma_ranking_sorted, lex_lt,
    rank_entries, ranking, selectable, unique_ids, RankEntry, RankKey,
};
use crate::records::{FloorStructureRecord, RoomStructureRecord};
use crate::store::{lookup, unique_keys, upsert_all, Keyed, StructureStore};
use crate::text::str_equal;

verus! {

/// Lower edge of the aspect band, and of the default area window, in percent
/// of the reference value.
pub const BAND_LOW_PERCENT: u64 = 85;

/// Upper edge of the aspect band, and of the default area window, in percent
/// of the reference value.
pub const BAND_HIGH_PERCENT: u64 = 115;

/// Largest rectangularity difference that passes the filter (0.1).
pub const RECTANGULARITY_TOLERANCE: u64 = 100_000;

/// Largest room-count difference that passes the floor filter.
pub const ROOM_COUNT_TOLERANCE: i64 = 3;

/// Least area that floor area differences are measured against (30 units).
pub const FLOOR_AREA_FLOOR: u64 = 30_000_000;

/// Least area that room area differences are measured against (5 units).
pub const ROOM_AREA_FLOOR: u64 = 5_000_000;

/// Weights of the floor score terms, in millionths.
pub const FLOOR_AREA_WEIGHT: u64 = 300_000;
pub const FLOOR_ASPECT_WEIGHT: u64 = 300_000;
pub const FLOOR_RECTANGULARITY_WEIGHT: u64 = 200_000;
pub const FLOOR_ROOM_COUNT_WEIGHT: u64 = 200_000;

/// Weights of the room score terms, in millionths.
pub const ROOM_AREA_WEIGHT: u64 = 300_000;
pub const ROOM_ASPECT_WEIGHT: u64 = 500_000;
pub const ROOM_RECTANGULARITY_WEIGHT: u64 = 200_000;

pub open spec fn abs_diff(a: int, b: int) -> int {
    if a >= b {
        a - b
    } else {
        b - a
    }
}

pub open spec fn max_int(a: int, b: int) -> int {
    if a >= b {
        a
    } else {
        b
    }
}

/// `c` lies within the band around `r`: both finite and `c` between 85% and
/// 115% of `r`, or both infinite.
pub open spec fn ratio_in_band(c: Ratio, r: Ratio) -> bool {
    match (c, r) {
        (Ratio::Finite(x), Ratio::Finite(y)) => BAND_LOW_PERCENT * y <= 100 * x <= BAND_HIGH_PERCENT * y,
        (Ratio::Infinite, Ratio::Infinite) => true,
        _ => false,
    }
}

/// Distance of two ratios; zero unless both are finite.
pub open spec fn ratio_distance(c: Ratio, r: Ratio) -> int {
    match (c, r) {
        (Ratio::Finite(x), Ratio::Finite(y)) => abs_diff(x as int, y as int),
        _ => 0,
    }
}

/// A weighted distance, in millionths.
pub open spec fn weighted(weight: int, distance: int) -> int {
    div_up(weight * distance, SCALE as int)
}

/// A weighted area difference relative to the reference area, which counts as
/// at least `floor`.
pub open spec fn area_term(weight: int, area: int, reference: int, floor: int) -> int {
    div_up(weight * abs_diff(area, reference), max_int(reference, floor))
}

/// The weighted room-count term `d / (d + max(reference, 1))`.
pub open spec fn room_count_term(room_count: int, reference: int) -> int {
    let d = abs_diff(room_count, reference);
    div_up(FLOOR_ROOM_COUNT_WEIGHT * d, d + max_int(reference, 1))
}

/// The reference values of a floor-similarity query.
pub struct FloorTarget {
    pub exclude: Seq<char>,
    pub area: int,
    pub room_count: int,
    pub area_from: int,
    pub area_to: int,
    pub aspect: Ratio,
    pub rectangularity: int,
}

/// A candidate floor passes every filter of the query.
pub open spec fn floor_passes(r: FloorStructureRecord, t: FloorTarget) -> bool {
    &&& r.project_id@ != t.exclude
    &&& t.area_from <= r.area <= t.area_to
    &&& ratio_in_band(r.bounding_box_aspect, t.aspect)
    &&& abs_diff(r.rectangularity as int, t.rectangularity) <= RECTANGULARITY_TOLERANCE
    &&& abs_diff(r.room_count as int, t.room_count) <= ROOM_COUNT_TOLERANCE
}

/// The floor score, in millionths: lower is more similar.
pub open spec fn floor_score(r: FloorStructureRecord, t: FloorTarget) -> int {
    area_term(FLOOR_AREA_WEIGHT as int, r.area as int, t.area, FLOOR_AREA_FLOOR as int)
        + weighted(FLOOR_ASPECT_WEIGHT as int, ratio_distance(r.bounding_box_aspect, t.aspect))
        + weighted(FLOOR_RECTANGULARITY_WEIGHT as int, abs_diff(r.rectangularity as int, t.rectangularity))
        + room_count_term(r.room_count as int, t.room_count)
}

pub open spec fn floor_key(r: FloorStructureRecord, t: FloorTarget) -> RankKey {
    RankKey { passes: floor_passes(r, t), score: floor_score(r, t), id: r.id@, project: r.project_id@ }
}

pub open spec fn floor_keys(s: Seq<FloorStructureRecord>, t: FloorTarget) -> Seq<RankKey> {
    s.map_values(|r: FloorStructureRecord| floor_key(r, t))
}

/// A floor found similar to a reference floor, with its score in millionths.
#[derive(Clone, Debug)]
pub struct SimilarFloor {
    pub id: String,
    pub title: String,
    pub project_id: String,
    pub area: u64,
    pub score: u128,
}

/// `out` reports the stored floor `r` with its score.
pub open spec fn similar_floor_of(out: SimilarFloor, r: FloorStructureRecord, t: FloorTarget) -> bool {
    &&& out.id@ == r.id@
    &&& out.title@ == r.title@
    &&& out.project_id@ == r.project_id@
    &&& out.area == r.area
    &&& out.score == floor_score(r, t)
}

/// The answer to a floor-similarity query over the stored floors `s`: the
/// best passing floor of each project, by ascending score and then id, at
/// most `k` of them.
pub open spec fn similar_floors_result(
    s: Seq<FloorStructureRecord>,
    t: FloorTarget,
    k: nat,
    out: Seq<SimilarFloor>,
) -> bool {
    let picks = ranking(floor_keys(s, t), true, k);
    &&& out.len() == picks.len()
    &&& forall|i: int| 0 <= i < out.len() ==> 0 <= picks[i] < s.len() && similar_floor_of(#[trigger] out[i], s[picks[i]], t)
}

/// Two reported floors carry the same values.
pub open spec fn same_similar_floor(a: SimilarFloor, b: SimilarFloor) -> bool {
    &&& a.id@ == b.id@
    &&& a.title@ == b.title@
    &&& a.project_id@ == b.project_id@
    &&& a.area == b.area
    &&& a.score == b.score
}

/// The reference values of a query made from a stored floor: its own project
/// is excluded, and the area window is the one given or else 85% to 115% of
/// its area.
pub open spec fn reference_floor_target(f: FloorStructureRecord, area_from: Option<i128>, area_to: Option<i128>) -> FloorTarget {
    FloorTarget {
        exclude: f.project_id@,
        area: f.area as int,
        room_count: f.room_count as int,
        area_from: match area_from {
            Some(v) => v as int,
            None => div_up(BAND_LOW_PERCENT * f.area, 100),
        },
        area_to: match area_to {
            Some(v) => v as int,
            None => (BAND_HIGH_PERCENT * f.area) / 100,
        },
        aspect: f.bounding_box_aspect,
        rectangularity: f.rectangularity as int,
    }
}

/// The reference values of a room-similarity query.
pub struct RoomTarget {
    pub exclude: Seq<char>,
    pub area: int,
    pub area_from: int,
    pub area_to: int,
    pub rectangularity: int,
    pub aspect_ri: Ratio,
    pub room_type: Option<i32>,
}

/// A candidate room passes every filter of the query.
pub open spec fn room_passes(r: RoomStructureRecord, t: RoomTarget) -> bool {
    &&& r.project_id@ != t.exclude
    &&& t.area_from <= r.area <= t.area_to
    &&& ratio_in_band(r.bounding_box_aspect_ri, t.aspect_ri)
    &&& abs_diff(r.rectangularity as int, t.rectangularity) <= RECTANGULARITY_TOLERANCE
    &&& t.room_type is Some ==> r.room_type == t.room_type->0
}

/// The room score, in millionths: lower is more similar.
pub open spec fn room_score(r: RoomStructureRecord, t: RoomTarget) -> int {
    area_term(ROOM_AREA_WEIGHT as int, r.area as int, t.area, ROOM_AREA_FLOOR as int)
        + weighted(ROOM_ASPECT_WEIGHT as int, ratio_distance(r.bounding_box_aspect_ri, t.aspect_ri))
        + weighted(ROOM_RECTANGULARITY_WEIGHT as int, abs_diff(r.rectangularity as int, t.rectangularity))
}

pub open spec fn room_key(r: RoomStructureRecord, t: RoomTarget) -> RankKey {
    RankKey { passes: room_passes(r, t), score: room_score(r, t), id: r.id@, project: r.project_id@ }
}

pub open spec fn room_keys(s: Seq<RoomStructureRecord>, t: RoomTarget) -> Seq<RankKey> {
    s.map_values(|r: RoomStructureRecord| room_key(r, t))
}

/// A room found similar to a reference room, with its score in millionths.
#[derive(Clone, Debug)]
pub struct SimilarRoom {
    pub id: String,
    pub project_id: String,
    pub area: u64,
    pub score: u128,
}

/// `out` reports the stored room `r` with its score.
pub open spec fn similar_room_of(out: SimilarRoom, r: RoomStructureRecord, t: RoomTarget) -> bool {
    &&& out.id@ == r.id@
    &&& out.project_id@ == r.project_id@
    &&& out.area == r.area
    &&& out.score == room_score(r, t)
}

/// The answer to a room-similarity query over the stored rooms `s`: passing
/// rooms, several per project allowed, by ascending score and then id, at
/// most `k` of them.
pub open spec fn similar_rooms_result(s: Seq<RoomStructureRecord>, t: RoomTarget, k: nat, out: Seq<SimilarRoom>) -> bool {
    let picks = ranking(room_keys(s, t), false, k);
    &&& out.len() == picks.len()
    &&& forall|i: int| 0 <= i < out.len() ==> 0 <= picks[i] < s.len() && similar_room_of(#[trigger] out[i], s[picks[i]], t)
}

/// Two reported rooms carry the same values.
pub open spec fn same_similar_room(a: SimilarRoom, b: SimilarRoom) -> bool {
    &&& a.id@ == b.id@
    &&& a.project_id@ == b.project_id@
    &&& a.area == b.area
    &&& a.score == b.score
}

/// The reference values of a query made from a stored room: its own project
/// is excluded, the area window is the one given or else 85% to 115% of its
/// area, and a room of a known category (not 0) is compared only with rooms
/// of that category.
pub open spec fn reference_room_target(r: RoomStructureRecord, area_from: Option<i128>, area_to: Option<i128>) -> RoomTarget {
    RoomTarget {
        exclude: r.project_id@,
        area: r.area as int,
        area_from: match area_from {
            Some(v) => v as int,
            None => div_up(BAND_LOW_PERCENT * r.area, 100),
        },
        area_to: match area_to {
            Some(v) => v as int,
            None => (BAND_HIGH_PERCENT * r.area) / 100,
        },
        rectangularity: r.rectangularity as int,
        aspect_ri: r.bounding_box_aspect_ri,
        room_type: if r.room_type != 0 {
            Some(r.room_type)
        } else {
            None
        },
    }
}

fn abs_diff_u64(a: u64, b: u64) -> (r: u64)
    ensures
        r == abs_diff(a as int, b as int),
{
    if a >= b {
        a - b
    } else {
        b - a
    }
}

fn ratio_in_band_exec(c: Ratio, r: Ratio) -> (b: bool)
    ensures
        b == ratio_in_band(c, r),
{
    match (c, r) {
        (Ratio::Finite(x), Ratio::Finite(y)) => {
            assert(BAND_LOW_PERCENT == 85 && BAND_HIGH_PERCENT == 115);
            let lo = 85u128 * (y as u128);
            let hi = 115u128 * (y as u128);
            let mid = 100u128 * (x as u128);
            lo <= mid && mid <= hi
        },
        (Ratio::Infinite, Ratio::Infinite) => true,
        _ => false,
    }
}

fn ratio_distance_exec(c: Ratio, r: Ratio) -> (d: u64)
    ensures
        d == ratio_distance(c, r),
{
    match (c, r) {
        (Ratio::Finite(x), Ratio::Finite(y)) => abs_diff_u64(x, y),
        _ => 0,
    }
}

/// `weight * distance / SCALE` rounded up.
fn weighted_exec(weight: u64, distance: u64) -> (r: u128)
    requires
        weight <= SCALE,
    ensures
        r == weighted(weight as int, distance as int),
        r <= distance,
{
    proof {
        assert(weight * distance <= 1_000_000 * 18_446_744_073_709_551_615) by (nonlinear_arith)
            requires
                0 <= weight <= 1_000_000,
                0 <= distance <= 18_446_744_073_709_551_615,
        ;
        assert((weight * distance + 1_000_000 - 1) / 1_000_000 <= distance) by (nonlinear_arith)
            requires
                0 <= weight <= 1_000_000,
                0 <= distance,
        ;
    }
    let num: u128 = (weight as u128) * (distance as u128);
    (num + (SCALE as u128) - 1) / (SCALE as u128)
}

/// `weight * |area - reference| / max(reference, floor)` rounded up.
fn area_term_exec(weight: u64, area: u64, reference: u64, floor: u64) -> (r: u128)
    requires
        weight <= SCALE,
        floor > 0,
    ensures
        r == area_term(weight as int, area as int, reference as int, floor as int),
        r <= SCALE * 18_446_744_073_709_551_615,
{
    let d = abs_diff_u64(area, reference);
    let den: u64 = if reference >= floor {
        reference
    } else {
        floor
    };
    proof {
        assert(weight * d <= 1_000_000 * 18_446_744_073_709_551_615) by (nonlinear_arith)
            requires
                0 <= weight <= 1_000_000,
                0 <= d <= 18_446_744_073_709_551_615,
        ;
        lemma_div_up_bounds(weight * d, den as int);
    }
    let num: u128 = (weight as u128) * (d as u128);
    (num + (den as u128) - 1) / (den as u128)
}

fn room_count_term_exec(room_count: i32, reference: i32) -> (r: u128)
    ensures
        r == room_count_term(room_count as int, reference as int),
        r <= FLOOR_ROOM_COUNT_WEIGHT * 4_294_967_296,
{
    let d: u64 = if room_count >= reference {
        (room_count as i64 - reference as i64) as u64
    } else {
        (reference as i64 - room_count as i64) as u64
    };
    let m: u64 = if reference >= 1 {
        reference as u64
    } else {
        1
    };
    let den: u64 = d + m;
    proof {
        lemma_div_up_bounds(FLOOR_ROOM_COUNT_WEIGHT * d, den as int);
    }
    let num: u128 = (FLOOR_ROOM_COUNT_WEIGHT as u128) * (d as u128);
    (num + (den as u128) - 1) / (den as u128)
}

/// The floor target of explicit query values.
pub open spec fn floor_target(
    exclude: Seq<char>,
    area: u64,
    room_count: i32,
    area_from: i128,
    area_to: i128,
    aspect: Ratio,
    rectangularity: u64,
) -> FloorTarget {
    FloorTarget {
        exclude,
        area: area as int,
        room_count: room_count as int,
        area_from: area_from as int,
        area_to: area_to as int,
        aspect,
        rectangularity: rectangularity as int,
    }
}

/// The room target of explicit query values.
pub open spec fn room_target(
    exclude: Seq<char>,
    area: u64,
    area_from: i128,
    area_to: i128,
    rectangularity: u64,
    aspect_ri: Ratio,
    room_type: Option<i32>,
) -> RoomTarget {
    RoomTarget {
        exclude,
        area: area as int,
        area_from: area_from as int,
        area_to: area_to as int,
        rectangularity: rectangularity as int,
        aspect_ri,
        room_type,
    }
}

/// Filters and scores one stored floor.
fn floor_entry(
    r: &FloorStructureRecord,
    exclude_project_id: &str,
    area: u64,
    room_count: i32,
    area_from: i128,
    area_to: i128,
    aspect: Ratio,
    rectangularity: u64,
) -> (e: RankEntry)
    ensures
        e@ == floor_key(
            *r,
            floor_target(exclude_project_id@, area, room_count, area_from, area_to, aspect, rectangularity),
        ),
{
    let rc_diff: i64 = if r.room_count >= room_count {
        r.room_count as i64 - room_count as i64
    } else {
        room_count as i64 - r.room_count as i64
    };
    let passes = !str_equal(r.project_id.as_str(), exclude_project_id) && area_from <= r.area as i128
        && r.area as i128 <= area_to && ratio_in_band_exec(r.bounding_box_aspect, aspect) && abs_diff_u64(
        r.rectangularity,
        rectangularity,
    ) <= RECTANGULARITY_TOLERANCE && rc_diff <= ROOM_COUNT_TOLERANCE;
    let t1 = area_term_exec(FLOOR_AREA_WEIGHT, r.area, area, FLOOR_AREA_FLOOR);
    let t2 = weighted_exec(FLOOR_ASPECT_WEIGHT, ratio_distance_exec(r.bounding_box_aspect, aspect));
    let t3 = weighted_exec(FLOOR_RECTANGULARITY_WEIGHT, abs_diff_u64(r.rectangularity, rectangularity));
    let t4 = room_count_term_exec(r.room_count, room_count);
    RankEntry { passes, score: t1 + t2 + t3 + t4, id: r.id.clone(), project_id: r.project_id.clone() }
}

/// Filters and scores one stored room.
fn room_entry(
    r: &RoomStructureRecord,
    exclude_project_id: &str,
    area: u64,
    area_from: i128,
    area_to: i128,
    rectangularity: u64,
    aspect_ri: Ratio,
    room_type: Option<i32>,
) -> (e: RankEntry)
    ensures
        e@ == room_key(
            *r,
            room_target(exclude_project_id@, area, area_from, area_to, rectangularity, aspect_ri, room_type),
        ),
{
    let type_ok = match room_type {
        Some(t) => r.room_type == t,
        None => true,
    };
    let passes = !str_equal(r.project_id.as_str(), exclude_project_id) && area_from <= r.area as i128
        && r.area as i128 <= area_to && ratio_in_band_exec(r.bounding_box_aspect_ri, aspect_ri) && abs_diff_u64(
        r.rectangularity,
        rectangularity,
    ) <= RECTANGULARITY_TOLERANCE && type_ok;
    let t1 = area_term_exec(ROOM_AREA_WEIGHT, r.area, area, ROOM_AREA_FLOOR);
    let t2 = weighted_exec(ROOM_ASPECT_WEIGHT, ratio_distance_exec(r.bounding_box_aspect_ri, aspect_ri));
    let t3 = weighted_exec(ROOM_RECTANGULARITY_WEIGHT, abs_diff_u64(r.rectangularity, rectangularity));
    RankEntry { passes, score: t1 + t2 + t3, id: r.id.clone(), project_id: r.project_id.clone() }
}

/// The lower edge of the default area window: 85% of `area`, rounded up so
/// that exactly the areas of at least 85% pass.
pub fn default_area_from(area: u64) -> (r: i128)
    ensures
        r == div_up(BAND_LOW_PERCENT * area, 100),
{
    ((BAND_LOW_PERCENT as i128) * (area as i128) + 99) / 100
}

/// The upper edge of the default area window: 115% of `area`, rounded down
/// so that exactly the areas of at most 115% pass.
pub fn default_area_to(area: u64) -> (r: i128)
    ensures
        r == (BAND_HIGH_PERCENT * area) / 100,
{
    ((BAND_HIGH_PERCENT as i128) * (area as i128)) / 100
}

/// The stored floor records, keyed by id.
pub struct FloorStructureRepository {
    store: StructureStore<FloorStructureRecord>,
}

impl View for FloorStructureRepository {
    type V = Seq<FloorStructureRecord>;

    closed spec fn view(&self) -> Seq<FloorStructureRecord> {
        self.store@
    }
}

impl FloorStructureRepository {
    /// Well-formed: no two stored floors share an id.
    pub open spec fn wf(&self) -> bool {
        unique_keys(self@)
    }

    /// An empty repository.
    pub fn new() -> (r: Self)
        ensures
            r@ == Seq::<FloorStructureRecord>::empty(),
            r.wf(),
    {
        FloorStructureRepository { store: StructureStore::new() }
    }

    /// The floor stored under `id`, if any.
    pub fn find_by_id(&self, id: &str) -> (r: Option<FloorStructureRecord>)
        requires
            self.wf(),
        ensures
            r == lookup(self@, id@),
    {
        self.store.find_by_id(id)
    }

    /// Upserts each record by id: a record replaces every column of the one
    /// stored under its id, or is added. An empty list changes nothing.
    pub fn save_all(&mut self, records: Vec<FloorStructureRecord>)
        requires
            old(self).wf(),
        ensures
            final(self).wf(),
            final(self)@ == upsert_all(old(self)@, records@),
    {
        self.store.save_all(records);
    }

    /// The stored floors, in the order they were first saved.
    pub fn records(&self) -> (r: &Vec<FloorStructureRecord>)
        ensures
            r@ == self@,
    {
        self.store.records()
    }

    /// Ranks the stored floors against explicit reference values: floors of
    /// other projects whose area lies in `[area_from, area_to]`, whose aspect
    /// lies in the band around `aspect`, and whose rectangularity and room
    /// count are close; the best of each project, by score and then id, at
    /// most `k` of them.
    pub fn find_top_k_similar_floors(
        &self,
        exclude_project_id: &str,
        area: u64,
        room_count: i32,
        area_from: i128,
        area_to: i128,
        aspect: Ratio,
        rectangularity: u64,
        k: u64,
    ) -> (r: Vec<SimilarFloor>)
        requires
            self.wf(),
        ensures
            similar_floors_result(
                self@,
                floor_target(exclude_project_id@, area, room_count, area_from, area_to, aspect, rectangularity),
                k as nat,
                r@,
            ),
            r@.len() <= k,
            forall|i: int| 0 <= i < r@.len() ==> (#[trigger] r@[i]).project_id@ != exclude_project_id@,
            forall|a: int, b: int|
                0 <= a < b < r@.len() ==> (#[trigger] r@[a]).score < (#[trigger] r@[b]).score || (r@[a].score
                    == r@[b].score && lex_lt(r@[a].id@, r@[b].id@)),
            forall|a: int, b: int|
                0 <= a < b < r@.len() ==> (#[trigger] r@[a]).project_id@ != (#[trigger] r@[b]).project_id@,
            (forall|j: int|
                0 <= j < self@.len() ==> !floor_passes(
                    #[trigger] self@[j],
                    floor_target(exclude_project_id@, area, room_count, area_from, area_to, aspect, rectangularity),
                )) ==> r@.len() == 0,
    {
        let ghost t = floor_target(exclude_project_id@, area, room_count, area_from, area_to, aspect, rectangularity);
        let records = self.store.records();
        let mut entries: Vec<RankEntry> = Vec::new();
        let mut i: usize = 0;
        while i < records.len()
            invariant
                records@ == self@,
                t == floor_target(exclude_project_id@, area, room_count, area_from, area_to, aspect, rectangularity),
                i <= records@.len(),
                entries@.len() == i,
                forall|j: int| 0 <= j < i ==> (#[trigger] entries@[j])@ == floor_key(records@[j], t),
            decreases records@.len() - i,
        {
            let e = floor_entry(
                &records[i],
                exclude_project_id,
                area,
                room_count,
                area_from,
                area_to,
                aspect,
                rectangularity,
            );
            assert(e@ == floor_key(records@[i as int], t));
            let ghost before = entries@;
            entries.push(e);
            proof {
                assert forall|j: int| 0 <= j < i + 1 implies (#[trigger] entries@[j])@ == floor_key(records@[j], t) by {
                    if j < i {
                        assert(entries@[j] == before[j]);
                    }
                }
            }
            i = i + 1;
        }
        proof {
            assert(keys_of(entries@) =~= floor_keys(self@, t));
            assert(unique_ids(keys_of(entries@))) by {
                assert forall|a: int, b: int|
                    0 <= a < entries@.len() && 0 <= b < entries@.len() && a != b implies #[trigger] keys_of(
                    entries@,
                )[a].id != #[trigger] keys_of(entries@)[b].id by {
                    assert(self@[a].key() != self@[b].key());
                }
            }
        }
        let picks = rank_entries(&entries, true, k);
        let ghost ks = keys_of(entries@);
        proof {
            lemma_ranking_selectable(ks, true, None, k as nat);
        }
        let mut out: Vec<SimilarFloor> = Vec::new();
        let mut u: usize = 0;
        while u < picks.len()
            invariant
                records@ == self@,
                entries@.len() == records@.len(),
                ks == keys_of(entries@),
                ks == floor_keys(self@, t),
                forall|j: int| 0 <= j < entries@.len() ==> (#[trigger] entries@[j])@ == floor_key(records@[j], t),
                picks@.len() == ranking(ks, true, k as nat).len(),
                forall|v: int| 0 <= v < picks@.len() ==> picks@[v] as int == ranking(ks, true, k as nat)[v],
                forall|v: int| 0 <= v < picks@.len() ==> (picks@[v] as int) < entries@.len(),
                u <= picks@.len(),
                out@.len() == u,
                forall|v: int|
                    0 <= v < u ==> similar_floor_of(#[trigger] out@[v], self@[ranking(ks, true, k as nat)[v]], t),
            decreases picks@.len() - u,
        {
            let j = picks[u];
            let rec = &records[j];
            out.push(
                SimilarFloor {
                    id: rec.id.clone(),
                    title: rec.title.clone(),
                    project_id: rec.project_id.clone(),
                    area: rec.area,
                    score: entries[j].score,
                },
            );
            u = u + 1;
        }
        proof {
            assert forall|i: int| 0 <= i < out@.len() implies (#[trigger] out@[i]).project_id@ != exclude_project_id@ by {
                let p = ranking(ks, true, k as nat)[i];
                assert(selectable(ks, true, p));
            }
            lemma_ranking_sorted(ks, true, None, k as nat);
            assert forall|a: int, b: int| 0 <= a < b < out@.len() implies (#[trigger] out@[a]).score < (
            #[trigger] out@[b]).score || (out@[a].score == out@[b].score && lex_lt(out@[a].id@, out@[b].id@)) by {
                assert(key_lt(ks[ranking(ks, true, k as nat)[a]], ks[ranking(ks, true, k as nat)[b]]));
            }
            lemma_ranking_distinct_projects(ks, k as nat);
            assert forall|a: int, b: int| 0 <= a < b < out@.len() implies (#[trigger] out@[a]).project_id@ != (
            #[trigger] out@[b]).project_id@ by {
                assert(ks[ranking(ks, true, k as nat)[a]].project != ks[ranking(ks, true, k as nat)[b]].project);
            }
        }
        out
    }

    /// Finds the floors most similar to the stored floor `floor_id`, leaving
    /// out its own project; the area window is `[area_from, area_to]` where
    /// given, else 85% to 115% of the reference area. `NotFound` when no floor
    /// is stored under `floor_id`.
    pub fn find_similar_floors(&self, floor_id: &str, area_from: Option<i128>, area_to: Option<i128>, k: u64) -> (r:
        Result<Vec<SimilarFloor>, StructureError>)
        requires
            self.wf(),
        ensures
            match lookup(self@, floor_id@) {
                None => r is Err && r->Err_0 is NotFound,
                Some(f) => r is Ok && similar_floors_result(
                    self@,
                    reference_floor_target(f, area_from, area_to),
                    k as nat,
                    r->Ok_0@,
                ) && r->Ok_0@.len() <= k && (forall|i: int|
                    0 <= i < r->Ok_0@.len() ==> (#[trigger] r->Ok_0@[i]).project_id@ != f.project_id@) && (forall|
                    a: int,
                    b: int,
                |
                    0 <= a < b < r->Ok_0@.len() ==> (#[trigger] r->Ok_0@[a]).score < (#[trigger] r->Ok_0@[b]).score
                        || (r->Ok_0@[a].score == r->Ok_0@[b].score && lex_lt(r->Ok_0@[a].id@, r->Ok_0@[b].id@))) && (forall|a: int, b: int|
                    0 <= a < b < r->Ok_0@.len() ==> (#[trigger] r->Ok_0@[a]).project_id@ != (
                    #[trigger] r->Ok_0@[b]).project_id@),
            },
    {
        let f = match self.find_by_id(floor_id) {
            Some(f) => f,
            None => {
                return Err(StructureError::NotFound);
            },
        };
        let from = match area_from {
            Some(v) => v,
            None => default_area_from(f.area),
        };
        let to = match area_to {
            Some(v) => v,
            None => default_area_to(f.area),
        };
        let found = self.find_top_k_similar_floors(
            f.project_id.as_str(),
            f.area,
            f.room_count,
            from,
            to,
            f.bounding_box_aspect,
            f.rectangularity,
            k,
        );
        Ok(found)
    }
}

/// The stored room records, keyed by id.
pub struct RoomStructureRepository {
    store: StructureStore<RoomStructureRecord>,
}

impl View for RoomStructureRepository {
    type V = Seq<RoomStructureRecord>;

    closed spec fn view(&self) -> Seq<RoomStructureRecord> {
        self.store@
    }
}

impl RoomStructureRepository {
    /// Well-formed: no two stored rooms share an id.
    pub open spec fn wf(&self) -> bool {
        unique_keys(self@)
    }

    /// An empty repository.
    pub fn new() -> (r: Self)
        ensures
            r@ == Seq::<RoomStructureRecord>::empty(),
            r.wf(),
    {
        RoomStructureRepository { store: StructureStore::new() }
    }

    /// The room stored under `id`, if any.
    pub fn find_by_id(&self, id: &str) -> (r: Option<RoomStructureRecord>)
        requires
            self.wf(),
        ensures
            r == lookup(self@, id@),
    {
        self.store.find_by_id(id)
    }

    /// Upserts each record by id: a record replaces every column of the one
    /// stored under its id, or is added. An empty list changes nothing.
    pub fn save_all(&mut self, records: Vec<RoomStructureRecord>)
        requires
            old(self).wf(),
        ensures
            final(self).wf(),
            final(self)@ == upsert_all(old(self)@, records@),
    {
        self.store.save_all(records);
    }

    /// The stored rooms, in the order they were first saved.
    pub fn records(&self) -> (r: &Vec<RoomStructureRecord>)
        ensures
            r@ == self@,
    {
        self.store.records()
    }

    /// Ranks the stored rooms against explicit reference values: rooms of
    /// other projects whose area lies in `[area_from, area_to]`, whose
    /// inverted aspect ratio lies in the band around `aspect_ri`, whose
    /// rectangularity is close and, when `room_type` is given, of that
    /// category; by score and then id, at most `k` of them, several per
    /// project allowed.
    pub fn find_top_k_similar_rooms(
        &self,
        exclude_project_id: &str,
        area: u64,
        area_from: i128,
        area_to: i128,
        rectangularity: u64,
        aspect_ri: Ratio,
        room_type: Option<i32>,
        k: u64,
    ) -> (r: Vec<SimilarRoom>)
        requires
            self.wf(),
        ensures
            similar_rooms_result(
                self@,
                room_target(exclude_project_id@, area, area_from, area_to, rectangularity, aspect_ri, room_type),
                k as nat,
                r@,
            ),
            r@.len() <= k,
            forall|i: int| 0 <= i < r@.len() ==> (#[trigger] r@[i]).project_id@ != exclude_project_id@,
            forall|a: int, b: int|
                0 <= a < b < r@.len() ==> (#[trigger] r@[a]).score < (#[trigger] r@[b]).score || (r@[a].score
                    == r@[b].score && lex_lt(r@[a].id@, r@[b].id@)),
            (forall|j: int|
                0 <= j < self@.len() ==> !room_passes(
                    #[trigger] self@[j],
                    room_target(exclude_project_id@, area, area_from, area_to, rectangularity, aspect_ri, room_type),
                )) ==> r@.len() == 0,
    {
        let ghost t = room_target(exclude_project_id@, area, area_from, area_to, rectangularity, aspect_ri, room_type);
        let records = self.store.records();
        let mut entries: Vec<RankEntry> = Vec::new();
        let mut i: usize = 0;
        while i < records.len()
            invariant
                records@ == self@,
                t == room_target(exclude_project_id@, area, area_from, area_to, rectangularity, aspect_ri, room_type),
                i <= records@.len(),
                entries@.len() == i,
                forall|j: int| 0 <= j < i ==> (#[trigger] entries@[j])@ == room_key(records@[j], t),
            decreases records@.len() - i,
        {
            let e = room_entry(
                &records[i],
                exclude_project_id,
                area,
                area_from,
                area_to,
                rectangularity,
                aspect_ri,
                room_type,
            );
            assert(e@ == room_key(records@[i as int], t));
            let ghost before = entries@;
            entries.push(e);
            proof {
                assert forall|j: int| 0 <= j < i + 1 implies (#[trigger] entries@[j])@ == room_key(records@[j], t) by {
                    if j < i {
                        assert(entries@[j] == before[j]);
                    }
                }
            }
            i = i + 1;
        }
        proof {
            assert(keys_of(entries@) =~= room_keys(self@, t));
            assert(unique_ids(keys_of(entries@))) by {
                assert forall|a: int, b: int|
                    0 <= a < entries@.len() && 0 <= b < entries@.len() && a != b implies #[trigger] keys_of(
                    entries@,
                )[a].id != #[trigger] keys_of(entries@)[b].id by {
                    assert(self@[a].key() != self@[b].key());
                }
            }
        }
        let picks = rank_entries(&entries, false, k);
        let ghost ks = keys_of(entries@);
        proof {
            lemma_ranking_selectable(ks, false, None, k as nat);
        }
        let mut out: Vec<SimilarRoom> = Vec::new();
        let mut u: usize = 0;
        while u < picks.len()
            invariant
                records@ == self@,
                entries@.len() == records@.len(),
                ks == keys_of(entries@),
                ks == room_keys(self@, t),
                forall|j: int| 0 <= j < entries@.len() ==> (#[trigger] entries@[j])@ == room_key(records@[j], t),
                picks@.len() == ranking(ks, false, k as nat).len(),
                forall|v: int| 0 <= v < picks@.len() ==> picks@[v] as int == ranking(ks, false, k as nat)[v],
                forall|v: int| 0 <= v < picks@.len() ==> (picks@[v] as int) < entries@.len(),
                u <= picks@.len(),
                out@.len() == u,
                forall|v: int|
                    0 <= v < u ==> similar_room_of(#[trigger] out@[v], self@[ranking(ks, false, k as nat)[v]], t),
            decreases picks@.len() - u,
        {
            let j = picks[u];
            let rec = &records[j];
            out.push(
                SimilarRoom {
                    id: rec.id.clone(),
                    project_id: rec.project_id.clone(),
                    area: rec.area,
                    score: entries[j].score,
                },
            );
            u = u + 1;
        }
        proof {
            assert forall|i: int| 0 <= i < out@.len() implies (#[trigger] out@[i]).project_id@ != exclude_project_id@ by {
                let p = ranking(ks, false, k as nat)[i];
                assert(selectable(ks, false, p));
            }
            lemma_ranking_sorted(ks, false, None, k as nat);
            assert forall|a: int, b: int| 0 <= a < b < out@.len() implies (#[trigger] out@[a]).score < (
            #[trigger] out@[b]).score || (out@[a].score == out@[b].score && lex_lt(out@[a].id@, out@[b].id@)) by {
                assert(key_lt(ks[ranking(ks, false, k as nat)[a]], ks[ranking(ks, false, k as nat)[b]]));
            }
        }
        out
    }

    /// Finds the rooms most similar to the stored room `room_id`, leaving out
    /// its own project; the area window is `[area_from, area_to]` (in the
    /// rooms' own unit) where given, else 85% to 115% of the reference area.
    /// `NotFound` when no room is stored under `room_id`.
    pub fn find_similar_rooms(&self, room_id: &str, area_from: Option<i128>, area_to: Option<i128>, k: u64) -> (r:
        Result<Vec<SimilarRoom>, StructureError>)
        requires
            self.wf(),
        ensures
            match lookup(self@, room_id@) {
                None => r is Err && r->Err_0 is NotFound,
                Some(f) => r is Ok && similar_rooms_result(
                    self@,
                    reference_room_target(f, area_from, area_to),
                    k as nat,
                    r->Ok_0@,
                ) && r->Ok_0@.len() <= k && (forall|i: int|
                    0 <= i < r->Ok_0@.len() ==> (#[trigger] r->Ok_0@[i]).project_id@ != f.project_id@) && (forall|
                    a: int,
                    b: int,
                |
                    0 <= a < b < r->Ok_0@.len() ==> (#[trigger] r->Ok_0@[a]).score < (#[trigger] r->Ok_0@[b]).score
                        || (r->Ok_0@[a].score == r->Ok_0@[b].score && lex_lt(r->Ok_0@[a].id@, r->Ok_0@[b].id@))),
            },
    {
        let f = match self.find_by_id(room_id) {
            Some(f) => f,
            None => {
                return Err(StructureError::NotFound);
            },
        };
        let from = match area_from {
            Some(v) => v,
            None => default_area_from(f.area),
        };
        let to = match area_to {
            Some(v) => v,
            None => default_area_to(f.area),
        };
        let room_type = if f.room_type != 0 {
            Some(f.room_type)
        } else {
            None
        };
        let found = self.find_top_k_similar_rooms(
            f.project_id.as_str(),
            f.area,
            from,
            to,
            f.rectangularity,
            f.bounding_box_aspect_ri,
            room_type,
            k,
        );
        Ok(found)
    }
}

/// Two floor queries over the same stored floors with the same reference
/// values give the same floors in the same order, ties included.
pub proof fn lemma_similar_floors_deterministic(
    s: Seq<FloorStructureRecord>,
    t: FloorTarget,
    k: nat,
    a: Seq<SimilarFloor>,
    b: Seq<SimilarFloor>,
)
    requires
        similar_floors_result(s, t, k, a),
        similar_floors_result(s, t, k, b),
    ensures
        a.len() == b.len(),
        forall|i: int| 0 <= i < a.len() ==> same_similar_floor(#[trigger] a[i], b[i]),
{
    assert forall|i: int| 0 <= i < a.len() implies same_similar_floor(#[trigger] a[i], b[i]) by {
        assert(similar_floor_of(a[i], s[ranking(floor_keys(s, t), true, k)[i]], t));
        assert(similar_floor_of(b[i], s[ranking(floor_keys(s, t), true, k)[i]], t));
    }
}

/// Two room queries over the same stored rooms with the same reference
/// values give the same rooms in the same order, ties included.
pub proof fn lemma_similar_rooms_deterministic(
    s: Seq<RoomStructureRecord>,
    t: RoomTarget,
    k: nat,
    a: Seq<SimilarRoom>,
    b: Seq<SimilarRoom>,
)
    requires
        similar_rooms_result(s, t, k, a),
        similar_rooms_result(s, t, k, b),
    ensures
        a.len() == b.len(),
        forall|i: int| 0 <= i < a.len() ==> same_similar_room(#[trigger] a[i], b[i]),
{
    assert forall|i: int| 0 <= i < a.len() implies same_similar_room(#[trigger] a[i], b[i]) by {
        assert(similar_room_of(a[i], s[ranking(room_keys(s, t), false, k)[i]], t));
        assert(similar_room_of(b[i], s[ranking(room_keys(s, t), false, k)[i]], t));
    }
}

} // verus!
