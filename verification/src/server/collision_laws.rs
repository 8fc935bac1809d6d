//! What an exported collision table is read back as.

use super::collision;
use super::collision::{CollisionError, MapGrid};
use vstd::prelude::*;

verus! {

/// The grid has a byte for every eight tiles, and one for what is left of them.
pub open spec fn is_full(g: MapGrid) -> bool {
    8 * (g.bits.len() - 1) < g.width * g.height <= 8 * g.bits.len()
}

/// A map as it is exported: group and number, width and height with the low byte first, the bits.
pub open spec fn record(m: (u8, u8, MapGrid)) -> Seq<u8> {
    seq![
        m.0,
        m.1,
        (m.2.width % 256) as u8,
        (m.2.width / 256) as u8,
        (m.2.height % 256) as u8,
        (m.2.height / 256) as u8,
    ] + m.2.bits
}

/// Maps as they are exported, one after the other.
pub open spec fn records(list: Seq<(u8, u8, MapGrid)>) -> Seq<u8>
    decreases list.len(),
{
    if list.len() == 0 {
        Seq::empty()
    } else {
        record(list[0]) + records(list.drop_first())
    }
}

/// A whole table: the letters "PPCL", two bytes of any value, how many maps there are, the maps.
pub open spec fn exported(list: Seq<(u8, u8, MapGrid)>, a: u8, b: u8) -> Seq<u8> {
    seq![
        'P' as u8,
        'P' as u8,
        'C' as u8,
        'L' as u8,
        a,
        b,
        (list.len() % 256) as u8,
        (list.len() / 256) as u8,
    ] + records(list)
}

/// All grids of the list are full, and it is not too long to be counted.
pub open spec fn is_list(list: Seq<(u8, u8, MapGrid)>) -> bool {
    list.len() < 65536 && forall|i: int| 0 <= i < list.len() ==> is_full((#[trigger] list[i]).2)
}

/// Place `i` of the list is the last one for its map.
pub open spec fn is_last(list: Seq<(u8, u8, MapGrid)>, i: int) -> bool {
    &&& 0 <= i < list.len()
    &&& forall|j: int|
        i < j < list.len() ==> (#[trigger] list[j]).0 != list[i].0 || list[j].1 != list[i].1
}

/// The maps of a list put with others, one after the other.
spec fn put(maps: Map<u16, MapGrid>, list: Seq<(u8, u8, MapGrid)>) -> Map<u16, MapGrid>
    decreases list.len(),
{
    if list.len() == 0 {
        maps
    } else {
        put(
            maps.insert((list[0].0 * 256 + list[0].1) as u16, list[0].2),
            list.drop_first(),
        )
    }
}

proof fn lemma_put(maps: Map<u16, MapGrid>, list: Seq<(u8, u8, MapGrid)>)
    ensures
        forall|i: int| #[trigger]
            is_last(list, i) ==> {
                let k = (list[i].0 * 256 + list[i].1) as u16;
                put(maps, list).contains_key(k) && put(maps, list)[k] == list[i].2
            },
        forall|k: u16|
            (forall|i: int| 0 <= i < list.len() ==> (#[trigger] list[i]).0 * 256 + list[i].1 != k)
                ==> (#[trigger] put(maps, list).contains_key(k)) == maps.contains_key(k)
                && put(maps, list)[k] == maps[k],
    decreases list.len(),
{
    if list.len() > 0 {
        let first = (list[0].0 * 256 + list[0].1) as u16;
        let next = maps.insert(first, list[0].2);
        let rest = list.drop_first();
        lemma_put(next, rest);
        assert forall|i: int| #[trigger] is_last(list, i) implies {
            let k = (list[i].0 * 256 + list[i].1) as u16;
            put(maps, list).contains_key(k) && put(maps, list)[k] == list[i].2
        } by {
            if i > 0 {
                assert(rest[i - 1] == list[i]);
                assert forall|j: int| i - 1 < j < rest.len() implies (#[trigger] rest[j]).0
                    != rest[i - 1].0 || rest[j].1 != rest[i - 1].1 by {
                    assert(rest[j] == list[j + 1]);
                }
                assert(is_last(rest, i - 1));
            } else {
                assert forall|j: int| 0 <= j < rest.len() implies (#[trigger] rest[j]).0 * 256
                    + rest[j].1 != first by {
                    assert(rest[j] == list[j + 1]);
                }
                assert(put(next, rest).contains_key(first) == next.contains_key(first));
            }
        }
        assert forall|k: u16|
            (forall|i: int| 0 <= i < list.len() ==> (#[trigger] list[i]).0 * 256 + list[i].1
                != k) implies (#[trigger] put(maps, list).contains_key(k)) == maps.contains_key(k)
            && put(maps, list)[k] == maps[k] by {
            assert(list[0].0 * 256 + list[0].1 != k);
            assert forall|i: int| 0 <= i < rest.len() implies (#[trigger] rest[i]).0 * 256
                + rest[i].1 != k by {
                assert(rest[i] == list[i + 1]);
            }
            assert(put(next, rest).contains_key(k) == next.contains_key(k));
        }
    }
}

proof fn lemma_size(g: MapGrid)
    requires
        is_full(g),
    ensures
        collision::grid_bytes(g.width, g.height) == g.bits.len(),
{
}

proof fn lemma_read(
    data: Seq<u8>,
    at: int,
    list: Seq<(u8, u8, MapGrid)>,
    rest: Seq<u8>,
    maps: Map<u16, MapGrid>,
)
    requires
        is_list(list),
        0 <= at <= data.len(),
        data.subrange(at, data.len() as int) == records(list) + rest,
    ensures
        collision::table_from(data, at, list.len(), maps) == Ok::<_, CollisionError>(
            put(maps, list),
        ),
    decreases list.len(),
{
    if list.len() > 0 {
        let m = list[0];
        let one = record(m);
        let all = records(list) + rest;
        let size = m.2.bits.len() as int;
        assert(is_full(list[0].2));
        assert(all.len() >= 6 + size);
        assert forall|i: int| 0 <= i < 6 + size implies data[at + i] == one[i] by {
            assert(data.subrange(at, data.len() as int)[i] == all[i]);
        }
        assert(data[at + 0] == one[0] && data[at + 1] == one[1]);
        assert(data[at + 2] == one[2] && data[at + 3] == one[3]);
        assert(data[at + 4] == one[4] && data[at + 5] == one[5]);
        lemma_size(m.2);
        let end = at + 6 + size;
        assert(data.subrange(at + 6, end) =~= m.2.bits) by {
            assert forall|i: int| 0 <= i < size implies data.subrange(at + 6, end)[i]
                == m.2.bits[i] by {
                assert(data[at + (6 + i)] == one[6 + i]);
            }
        }
        assert(data.subrange(end, data.len() as int) =~= records(list.drop_first()) + rest) by {
            assert(data.subrange(end, data.len() as int) =~= data.subrange(
                at,
                data.len() as int,
            ).subrange(6 + size, data.len() - at));
            assert(all.subrange(6 + size, all.len() as int) =~= records(list.drop_first()) + rest);
        }
        assert forall|i: int| 0 <= i < list.drop_first().len() implies is_full(
            (#[trigger] list.drop_first()[i]).2,
        ) by {
            assert(is_full(list[i + 1].2));
        }
        lemma_read(
            data,
            end,
            list.drop_first(),
            rest,
            maps.insert((m.0 * 256 + m.1) as u16, m.2),
        );
    }
}

/// A table that was exported is read back: every map has the grid that the last record for it gives,
/// under a key of its own, and there are no other maps. What follows the records is not looked at.
pub proof fn law_exported_tables_are_read_back(
    list: Seq<(u8, u8, MapGrid)>,
    a: u8,
    b: u8,
    rest: Seq<u8>,
)
    requires
        is_list(list),
    ensures
        ({
            let r = collision::table_of(exported(list, a, b) + rest);
            &&& r is Ok
            &&& forall|i: int| #[trigger]
                is_last(list, i) ==> {
                    let k = (list[i].0 * 256 + list[i].1) as u16;
                    r->Ok_0.contains_key(k) && r->Ok_0[k] == list[i].2
                }
            &&& forall|k: u16| #[trigger]
                r->Ok_0.contains_key(k) ==> exists|i: int|
                    0 <= i < list.len() && (#[trigger] list[i]).0 * 256 + list[i].1 == k
        }),
{
    let data = exported(list, a, b) + rest;
    assert('P' as u8 == 0x50 && 'C' as u8 == 0x43 && 'L' as u8 == 0x4C);
    assert(data[0] == 0x50 && data[1] == 0x50 && data[2] == 0x43 && data[3] == 0x4C);
    assert(data[6] == (list.len() % 256) as u8 && data[7] == (list.len() / 256) as u8);
    assert(data.subrange(8, data.len() as int) =~= records(list) + rest);
    lemma_read(data, 8, list, rest, Map::empty());
    lemma_put(Map::empty(), list);
}

proof fn lemma_cut(data: Seq<u8>, at: int, list: Seq<(u8, u8, MapGrid)>, maps: Map<u16, MapGrid>)
    requires
        is_list(list),
        0 <= at <= data.len(),
        data.len() - at < records(list).len(),
        forall|i: int| at <= i < data.len() ==> #[trigger] data[i] == records(list)[i - at],
    ensures
        collision::table_from(data, at, list.len(), maps) is Err,
    decreases list.len(),
{
    if list.len() > 0 && at + 6 <= data.len() {
        let m = list[0];
        let one = record(m);
        let size = m.2.bits.len() as int;
        assert(is_full(list[0].2));
        assert forall|i: int| 0 <= i < 6 implies data[at + i] == one[i] by {
            assert(records(list)[at + i - at] == one[i]);
        }
        assert(data[at + 0] == one[0] && data[at + 1] == one[1]);
        assert(data[at + 2] == one[2] && data[at + 3] == one[3]);
        assert(data[at + 4] == one[4] && data[at + 5] == one[5]);
        lemma_size(m.2);
        let end = at + 6 + size;
        if end <= data.len() {
            let more = list.drop_first();
            assert forall|i: int| 0 <= i < more.len() implies is_full((#[trigger] more[i]).2) by {
                assert(is_full(list[i + 1].2));
            }
            assert forall|i: int| end <= i < data.len() implies #[trigger] data[i] == records(
                more,
            )[i - end] by {
                assert(data[i] == records(list)[i - at]);
            }
            let grid = MapGrid {
                width: m.2.width,
                height: m.2.height,
                bits: data.subrange(at + 6, end),
            };
            lemma_cut(data, end, more, maps.insert((m.0 * 256 + m.1) as u16, grid));
        }
    }
}

/// A table that was cut off anywhere is refused.
pub proof fn law_cut_tables_are_refused(list: Seq<(u8, u8, MapGrid)>, a: u8, b: u8, n: int)
    requires
        is_list(list),
        0 <= n < exported(list, a, b).len(),
    ensures
        collision::table_of(exported(list, a, b).subrange(0, n)) is Err,
{
    let data = exported(list, a, b).subrange(0, n);
    if n >= 8 {
        assert(data[6] == (list.len() % 256) as u8 && data[7] == (list.len() / 256) as u8);
        assert forall|i: int| 8 <= i < data.len() implies #[trigger] data[i] == records(list)[i
            - 8] by {
            assert(data[i] == exported(list, a, b)[i]);
        }
        lemma_cut(data, 8, list, Map::empty());
    }
}

/// A table is refused whose first four bytes are not the letters "PPCL".
pub proof fn law_tables_start_with_their_letters(data: Seq<u8>, i: int)
    requires
        0 <= i < 4,
        data.len() > i,
        data[i] != seq!['P' as u8, 'P' as u8, 'C' as u8, 'L' as u8][i],
    ensures
        collision::table_of(data) is Err,
{
    assert('P' as u8 == 0x50 && 'C' as u8 == 0x43 && 'L' as u8 == 0x4C);
}

} // verus!
