//! Where a player is allowed to stand.
//!
//! Read from a table exported from the game's own map data: one bit per tile, set when solid.

use crate::bytes;
use std::collections::HashMap;
use vstd::prelude::*;

verus! {

broadcast use vstd::std_specs::hash::group_hash_axioms;

/// Runtime coordinates include a border the layout does not: the client reports a position with
/// this already added, so it comes back off before indexing the grid.
pub const MAP_OFFSET: i16 = 7;

/// The grid of one map.
pub struct MapCollision {
    pub width: u16,
    pub height: u16,
    /// One bit per tile, set when solid.
    pub bits: Vec<u8>,
}

/// A `MapCollision` as a value of the specification.
#[verifier::ext_equal]
pub struct MapGrid {
    pub width: u16,
    pub height: u16,
    pub bits: Seq<u8>,
}

impl View for MapCollision {
    type V = MapGrid;

    open spec fn view(&self) -> MapGrid {
        MapGrid { width: self.width, height: self.height, bits: self.bits@ }
    }
}

/// How many bytes hold one bit for each tile.
pub open spec fn grid_bytes(width: u16, height: u16) -> int {
    (width * height + 7) / 8
}

impl MapGrid {
    /// There is a bit for each tile.
    pub open spec fn wf(self) -> bool {
        self.bits.len() == grid_bytes(self.width, self.height)
    }

    /// The layout coordinate is a tile. Sizes are compared as signed sixteen-bit numbers, which
    /// is how the game reports positions, so a map wider than those has no tiles.
    pub open spec fn holds(self, x: int, y: int) -> bool {
        0 <= x < (self.width as i16) as int && 0 <= y < (self.height as i16) as int
    }

    /// The layout coordinate is a solid tile. Off the edge of the layout is not: connections
    /// mean that a step or two there is normal while crossing between maps.
    pub open spec fn solid(self, x: int, y: int) -> bool {
        let index = y * self.width + x;
        self.holds(x, y) && (self.bits[index / 8] >> ((index % 8) as u8)) & 1 == 1
    }
}

/// The key of a map in the table.
pub open spec fn map_key(group: u8, num: u8) -> u16 {
    (group * 256 + num) as u16
}

pub fn key_of(group: u8, num: u8) -> (r: u16)
    ensures
        r == map_key(group, num),
{
    group as u16 * 256 + num as u16
}

impl MapCollision {
    /// Whether a layout coordinate is actually on this map.
    fn in_bounds(&self, x: i32, y: i32) -> (r: bool)
        ensures
            r == self@.holds(x as int, y as int),
    {
        x >= 0 && y >= 0 && x < (self.width as i16) as i32 && y < (self.height as i16) as i32
    }

    fn blocked(&self, x: i32, y: i32) -> (r: bool)
        requires
            self@.wf(),
        ensures
            r == self@.solid(x as int, y as int),
    {
        if !self.in_bounds(x, y) {
            return false;
        }
        let ghost w = self.width as int;
        let ghost h = self.height as int;
        proof {
            let a = self.width;
            let b = self.height;
            assert((a as i16) as int <= a as int) by (bit_vector);
            assert((b as i16) as int <= b as int) by (bit_vector);
            assert(0 <= y * w + x < w * h) by (nonlinear_arith)
                requires
                    0 <= x < w,
                    0 <= y < h,
            ;
            assert(w * h <= 65535 * 65535) by (nonlinear_arith)
                requires
                    0 <= w <= 65535,
                    0 <= h <= 65535,
            ;
            assert(0 <= y * w <= w * h) by (nonlinear_arith)
                requires
                    0 <= w,
                    0 <= y < h,
            ;
        }
        let index: u64 = y as u64 * self.width as u64 + x as u64;
        assert(index / 8 < self.bits@.len());
        (self.bits[(index / 8) as usize] >> ((index % 8) as u8)) & 1 == 1
    }
}

/// Why a table was refused.
#[derive(Debug, Clone, Copy, PartialEq, Eq, Structural)]
pub enum CollisionError {
    Short,
    Magic,
    MidRecord,
    MidMap,
}

impl CollisionError {
    /// What is reported of the refusal.
    pub fn message(&self) -> (r: String)
        ensures
            r@ == (match *self {
                CollisionError::Short => "collision table is too short to hold a header"@,
                CollisionError::Magic => "collision table has the wrong magic"@,
                CollisionError::MidRecord => "collision table ends mid-record"@,
                CollisionError::MidMap => "collision table ends mid-map"@,
            }),
    {
        match *self {
            CollisionError::Short => "collision table is too short to hold a header".to_owned(),
            CollisionError::Magic => "collision table has the wrong magic".to_owned(),
            CollisionError::MidRecord => "collision table ends mid-record".to_owned(),
            CollisionError::MidMap => "collision table ends mid-map".to_owned(),
        }
    }
}

/// The maps of `count` records from `at` on, added to `maps`. A later record of a map replaces an
/// earlier one.
pub open spec fn table_from(
    data: Seq<u8>,
    at: int,
    count: nat,
    maps: Map<u16, MapGrid>,
) -> Result<Map<u16, MapGrid>, CollisionError>
    decreases count,
{
    if count == 0 {
        Ok(maps)
    } else if at + 6 > data.len() {
        Err(CollisionError::MidRecord)
    } else {
        let width = bytes::le16(data, at + 2);
        let height = bytes::le16(data, at + 4);
        let end = at + 6 + grid_bytes(width, height);
        if end > data.len() {
            Err(CollisionError::MidMap)
        } else {
            let grid = MapGrid { width, height, bits: data.subrange(at + 6, end) };
            table_from(
                data,
                end,
                (count - 1) as nat,
                maps.insert(map_key(data[at], data[at + 1]), grid),
            )
        }
    }
}

/// What an exported table says: "PPCL", two unused bytes, the number of records, the records.
pub open spec fn table_of(data: Seq<u8>) -> Result<Map<u16, MapGrid>, CollisionError> {
    if data.len() < 8 {
        Err(CollisionError::Short)
    } else if !(data[0] == 0x50 && data[1] == 0x50 && data[2] == 0x43 && data[3] == 0x4C) {
        Err(CollisionError::Magic)
    } else {
        table_from(data, 8, bytes::le16(data, 6) as nat, Map::empty())
    }
}

/// The grids of every map that is known. Empty when the table could not be loaded.
pub struct Collision {
    maps: HashMap<u16, MapCollision>,
}

/// The grids of a table as values of the specification.
pub open spec fn grids(maps: Map<u16, MapCollision>) -> Map<u16, MapGrid> {
    Map::new(|k: u16| maps.contains_key(k), |k: u16| maps[k]@)
}

impl View for Collision {
    type V = Map<u16, MapGrid>;

    closed spec fn view(&self) -> Map<u16, MapGrid> {
        grids(self.maps@)
    }
}

impl Collision {
    #[verifier::type_invariant]
    spec fn inv(self) -> bool {
        forall|k: u16| #[trigger] self.maps@.contains_key(k) ==> self.maps@[k]@.wf()
    }

    /// A table without maps.
    pub fn empty() -> (r: Self)
        ensures
            r@ == Map::<u16, MapGrid>::empty(),
    {
        let r = Collision { maps: HashMap::new() };
        assert(r@ =~= Map::<u16, MapGrid>::empty());
        r
    }

    /// Reads the exported table.
    pub fn parse(data: &[u8]) -> (r: Result<Self, CollisionError>)
        ensures
            match r {
                Ok(c) => table_of(data@) == Ok::<Map<u16, MapGrid>, CollisionError>(c@),
                Err(e) => table_of(data@) == Err::<Map<u16, MapGrid>, CollisionError>(e),
            },
    {
        if data.len() < 8 {
            return Err(CollisionError::Short);
        }
        if !(data[0] == 0x50 && data[1] == 0x50 && data[2] == 0x43 && data[3] == 0x4C) {
            return Err(CollisionError::Magic);
        }
        let count: u16 = bytes::get16(data, 6);
        let mut maps: HashMap<u16, MapCollision> = HashMap::new();
        let mut at: usize = 8;
        let mut left: u16 = count;
        assert(grids(maps@) =~= Map::<u16, MapGrid>::empty());
        while left > 0
            invariant
                at <= data@.len(),
                table_of(data@) == table_from(data@, at as int, left as nat, grids(maps@)),
                forall|k: u16| #[trigger] maps@.contains_key(k) ==> maps@[k]@.wf(),
            decreases left,
        {
            assert(data.len() == data@.len());
            if data.len() - at < 6 {
                return Err(CollisionError::MidRecord);
            }
            let key: u16 = key_of(data[at], data[at + 1]);
            let width: u16 = bytes::get16(data, at + 2);
            let height: u16 = bytes::get16(data, at + 4);
            proof {
                assert(0 <= width * height <= 65535 * 65535) by (nonlinear_arith)
                    requires
                        0 <= width <= 65535,
                        0 <= height <= 65535,
                ;
            }
            let need: u64 = (width as u64 * height as u64 + 7) / 8;
            if ((data.len() - at - 6) as u64) < need {
                return Err(CollisionError::MidMap);
            }
            let len: usize = need as usize;
            let ghost before = maps@;
            let map = MapCollision {
                width,
                height,
                bits: bytes::copy_range(data, at + 6, len),
            };
            let ghost grid = map@;
            maps.insert(key, map);
            proof {
                assert(grids(maps@) =~= grids(before).insert(key, grid));
                assert(grid =~= (MapGrid {
                    width,
                    height,
                    bits: data@.subrange(at + 6, at + 6 + need),
                }));
            }
            at = at + 6 + len;
            left = left - 1;
        }
        Ok(Collision { maps })
    }

    /// How many maps are known.
    pub fn len(&self) -> (r: usize)
        ensures
            r == self@.dom().len(),
    {
        assert(self@.dom() =~= self.maps@.dom());
        self.maps.len()
    }

    /// True when this position is a real place on this map.
    ///
    /// Unknown maps pass: a map the table does not cover must not become a cage. What this does
    /// catch is a position on a map the table does know that is off the edge of it, which is not
    /// a tile, however it was arrived at.
    pub fn in_bounds(&self, group: u8, num: u8, x: i16, y: i16) -> (r: bool)
        ensures
            r == place_on(self@, group, num, x, y),
    {
        match self.maps.get(&key_of(group, num)) {
            Some(map) => map.in_bounds(
                x as i32 - MAP_OFFSET as i32,
                y as i32 - MAP_OFFSET as i32,
            ),
            None => true,
        }
    }

    /// True when a player may stand here. Unknown maps are allowed rather than refused.
    pub fn walkable(&self, group: u8, num: u8, x: i16, y: i16) -> (r: bool)
        ensures
            r == may_stand(self@, group, num, x, y),
    {
        proof {
            use_type_invariant(self);
        }
        match self.maps.get(&key_of(group, num)) {
            Some(map) => !map.blocked(x as i32 - MAP_OFFSET as i32, y as i32 - MAP_OFFSET as i32),
            None => true,
        }
    }
}

/// The position is a tile of the map, or the map is not known.
pub open spec fn place_on(maps: Map<u16, MapGrid>, group: u8, num: u8, x: i16, y: i16) -> bool {
    maps.contains_key(map_key(group, num)) ==> maps[map_key(group, num)].holds(x - 7, y - 7)
}

/// The position is not a solid tile of the map, or the map is not known.
pub open spec fn may_stand(maps: Map<u16, MapGrid>, group: u8, num: u8, x: i16, y: i16) -> bool {
    maps.contains_key(map_key(group, num)) ==> !maps[map_key(group, num)].solid(x - 7, y - 7)
}

/// Two maps share a key only if they are the same map.
pub proof fn law_map_keys_are_distinct(g1: u8, n1: u8, g2: u8, n2: u8)
    ensures
        map_key(g1, n1) == map_key(g2, n2) <==> g1 == g2 && n1 == n2,
{
}

/// Off the edge of a known map nothing is solid, so that connections can be crossed.
pub proof fn law_off_the_map_is_walkable(maps: Map<u16, MapGrid>, group: u8, num: u8, x: i16, y: i16)
    requires
        !place_on(maps, group, num, x, y),
    ensures
        may_stand(maps, group, num, x, y),
{
}

} // verus!
