use vstd::prelude::*;

use crate::text::str_equal;

verus! {

/// The position of the first `c` in `s`, if any.
pub open spec fn first_position(s: Seq<char>, c: char) -> Option<int> {
    if exists|i: int| 0 <= i < s.len() && s[i] == c {
        Some(choose|i: int| 0 <= i < s.len() && s[i] == c && forall|j: int| 0 <= j < i ==> s[j] != c)
    } else {
        None
    }
}

/// A room key is a project id and a room id joined by the first underscore;
/// both parts must be non-empty.
pub open spec fn room_key_parts(key: Seq<char>) -> Option<(Seq<char>, Seq<char>)> {
    match first_position(key, '_') {
        Some(p) => if 0 < p && p + 1 < key.len() {
            Some((key.subrange(0, p), key.subrange(p + 1, key.len() as int)))
        } else {
            None
        },
        None => None,
    }
}

/// Splits a room key into its project id and room id.
pub fn split_room_key(key: &str) -> (r: Option<(String, String)>)
    ensures
        match room_key_parts(key@) {
            Some((p, q)) => r matches Some((a, b)) && a@ == p && b@ == q,
            None => r is None,
        },
{
    let n = key.unicode_len();
    let mut i: usize = 0;
    while i < n
        invariant
            n == key@.len(),
            i <= n,
            forall|j: int| 0 <= j < i ==> key@[j] != '_',
        decreases n - i,
    {
        if key.get_char(i) == '_' {
            proof {
                let w = choose|w: int| 0 <= w < key@.len() && key@[w] == '_' && forall|j: int| 0 <= j < w ==> key@[j] != '_';
                assert(w == i) by {
                    if w > i {
                        assert(key@[i as int] == '_');
                    }
                }
            }
            if i == 0 || i + 1 >= n {
                return None;
            }
            let project = key.substring_char(0, i).to_owned();
            let room = key.substring_char(i + 1, n).to_owned();
            return Some((project, room));
        }
        i = i + 1;
    }
    None
}

/// Floor plan `i` has, at position `j`, a room named `id`.
pub open spec fn names_room(floors: Seq<Option<Vec<String>>>, i: int, j: int, id: Seq<char>) -> bool {
    &&& 0 <= i < floors.len()
    &&& floors[i] is Some
    &&& 0 <= j < floors[i]->0@.len()
    &&& floors[i]->0@[j]@ == id
}

/// Finds the first floor plan that has a room named `room_id`, and the first
/// such room in it. `floors` holds, per floor plan, the ids of its rooms, or
/// nothing when the plan has no room list.
pub fn locate_room(floors: &Vec<Option<Vec<String>>>, room_id: &str) -> (r: Option<(usize, usize)>)
    ensures
        r is None <==> !exists|i: int, j: int| names_room(floors@, i, j, room_id@),
        r is Some ==> {
            let (i, j) = r->0;
            &&& names_room(floors@, i as int, j as int, room_id@)
            &&& forall|a: int, b: int| 0 <= a < i ==> !names_room(floors@, a, b, room_id@)
            &&& forall|b: int| 0 <= b < j ==> !names_room(floors@, i as int, b, room_id@)
        },
{
    let mut i: usize = 0;
    while i < floors.len()
        invariant
            i <= floors@.len(),
            forall|a: int, b: int| 0 <= a < i ==> !names_room(floors@, a, b, room_id@),
        decreases floors@.len() - i,
    {
        if let Some(rooms) = &floors[i] {
            let mut j: usize = 0;
            while j < rooms.len()
                invariant
                    i < floors@.len(),
                    floors@[i as int] == Some(*rooms),
                    j <= rooms@.len(),
                    forall|a: int, b: int| 0 <= a < i ==> !names_room(floors@, a, b, room_id@),
                    forall|b: int| 0 <= b < j ==> !names_room(floors@, i as int, b, room_id@),
                decreases rooms@.len() - j,
            {
                if str_equal(rooms[j].as_str(), room_id) {
                    proof {
                        assert(floors@[i as int]->0@[j as int] == rooms@[j as int]);
                        assert(names_room(floors@, i as int, j as int, room_id@));
                    }
                    return Some((i, j));
                }
                j = j + 1;
            }
        }
        i = i + 1;
    }
    None
}

/// Where the items reported for a room come from.
#[derive(Clone, Debug)]
pub enum RoomItemSource {
    /// These items of the floor plan, by position.
    FromFloorplan(Vec<usize>),
    /// The items the room lists itself.
    FromRoom,
}

/// Some item of the room has the id `id`.
pub open spec fn room_lists(room_ids: Seq<Option<String>>, id: Seq<char>) -> bool {
    exists|k: int| 0 <= k < room_ids.len() && room_ids[k] is Some && (#[trigger] room_ids[k])->0@ == id
}

/// The positions of the floor-plan items whose id some item of the room has.
pub open spec fn shared_items(floor_ids: Seq<Option<String>>, room_ids: Seq<Option<String>>) -> Seq<int>
    decreases floor_ids.len(),
{
    if floor_ids.len() == 0 {
        Seq::empty()
    } else {
        let rest = shared_items(floor_ids.drop_last(), room_ids);
        if floor_ids.last() is Some && room_lists(room_ids, floor_ids.last()->0@) {
            rest.push(floor_ids.len() - 1)
        } else {
            rest
        }
    }
}

fn room_lists_exec(room_ids: &Vec<Option<String>>, id: &String) -> (r: bool)
    ensures
        r == room_lists(room_ids@, id@),
{
    let mut k: usize = 0;
    while k < room_ids.len()
        invariant
            k <= room_ids@.len(),
            forall|q: int| 0 <= q < k ==> !(room_ids@[q] is Some && (#[trigger] room_ids@[q])->0@ == id@),
        decreases room_ids@.len() - k,
    {
        if let Some(other) = &room_ids[k] {
            if str_equal(other.as_str(), id.as_str()) {
                return true;
            }
        }
        k = k + 1;
    }
    false
}

/// Chooses the items of a room: the floor plan's items whose id the room's
/// own items carry, in floor-plan order; when there are none and the room
/// lists items itself, those.
pub fn select_room_items(floor_item_ids: &Vec<Option<String>>, room_item_ids: &Vec<Option<String>>) -> (r:
    RoomItemSource)
    ensures
        match r {
            RoomItemSource::FromRoom => shared_items(floor_item_ids@, room_item_ids@).len() == 0
                && room_item_ids@.len() > 0,
            RoomItemSource::FromFloorplan(v) => v@.map_values(|i: usize| i as int) == shared_items(
                floor_item_ids@,
                room_item_ids@,
            ) && (v@.len() > 0 || room_item_ids@.len() == 0),
        },
{
    let mut chosen: Vec<usize> = Vec::new();
    let mut i: usize = 0;
    proof {
        assert(chosen@.map_values(|i: usize| i as int) =~= shared_items(floor_item_ids@.subrange(0, 0), room_item_ids@));
    }
    while i < floor_item_ids.len()
        invariant
            i <= floor_item_ids@.len(),
            chosen@.map_values(|i: usize| i as int) == shared_items(floor_item_ids@.subrange(0, i as int), room_item_ids@),
        decreases floor_item_ids@.len() - i,
    {
        let ghost prefix = floor_item_ids@.subrange(0, i + 1);
        proof {
            assert(prefix.drop_last() =~= floor_item_ids@.subrange(0, i as int));
            assert(prefix.last() == floor_item_ids@[i as int]);
        }
        let ghost before = chosen@;
        let take = match &floor_item_ids[i] {
            Some(id) => room_lists_exec(room_item_ids, id),
            None => false,
        };
        if take {
            chosen.push(i);
            proof {
                assert(chosen@.map_values(|i: usize| i as int) =~= before.map_values(|i: usize| i as int).push(i as int));
            }
        }
        i = i + 1;
    }
    proof {
        assert(floor_item_ids@.subrange(0, floor_item_ids@.len() as int) =~= floor_item_ids@);
    }
    if chosen.len() == 0 && room_item_ids.len() > 0 {
        RoomItemSource::FromRoom
    } else {
        RoomItemSource::FromFloorplan(chosen)
    }
}

} // verus!
