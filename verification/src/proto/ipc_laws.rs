//! What stands in the frames between sidecar and game, told byte by byte.

use super::ipc;
use super::ipc::{GameMessageView, IpcError, SnapshotEntry};
use crate::bytes;
use crate::server::save_parse::parse_laws::{law_numbers_are_little_endian, num};
use vstd::prelude::*;
use vstd::utf8;

verus! {

/// A coordinate as it stands in sixteen bits.
pub open spec fn wrapped(x: i16) -> int {
    if x >= 0 {
        x as int
    } else {
        x + 0x1_0000
    }
}

pub proof fn lemma_wrapped(x: i16)
    ensures
        (x as u16) as int == wrapped(x),
        (x as u16) as i16 == x,
{
    assert(x >= 0 ==> (x as u16) as int == x as int) by (bit_vector);
    assert(x < 0 ==> (x as u16) as int == x as int + 0x1_0000) by (bit_vector);
    assert((x as u16) as i16 == x) by (bit_vector);
}

proof fn lemma_unwrapped(v: u16)
    ensures
        wrapped(v as i16) == v,
{
    assert(((v as i16) as u16) == v) by (bit_vector);
    lemma_wrapped(v as i16);
}

/// Four bytes of a list are those of a number that was laid there.
pub proof fn lemma_word(b: Seq<u8>, at: int, x: u32)
    requires
        b.subrange(at, at + 4) == bytes::bytes32(x),
        0 <= at,
        at + 4 <= b.len(),
    ensures
        num(b, at, 4) == x,
{
    let w = bytes::bytes32(x);
    assert(b[at] == b.subrange(at, at + 4)[0]);
    assert(b[at + 1] == b.subrange(at, at + 4)[1]);
    assert(b[at + 2] == b.subrange(at, at + 4)[2]);
    assert(b[at + 3] == b.subrange(at, at + 4)[3]);
    assert(b[at] == x % 0x100 && b[at + 1] == x / 0x100 % 0x100 && b[at + 2] == x / 0x1_0000
        % 0x100 && b[at + 3] == x / 0x100_0000);
    reveal_with_fuel(num, 5);
}

/// Two bytes of a list are those of a number that was laid there.
pub proof fn lemma_half(b: Seq<u8>, at: int, x: u16)
    requires
        b.subrange(at, at + 2) == bytes::bytes16(x),
        0 <= at,
        at + 2 <= b.len(),
    ensures
        num(b, at, 2) == x,
{
    assert(b[at] == b.subrange(at, at + 2)[0]);
    assert(b[at + 1] == b.subrange(at, at + 2)[1]);
    reveal_with_fuel(num, 3);
}

// ---------------------------------------------------------------------------------------------
// Fields and frames
// ---------------------------------------------------------------------------------------------

/// A field holds the start of the text, then zeros to its end, at least one; and no more whole
/// characters of the text would have fitted.
pub proof fn law_fields_hold_as_much_as_fits(s: Seq<char>, width: int)
    requires
        width > 0,
    ensures
        ({
            let b = utf8::encode_utf8(s);
            let f = ipc::text_field(s, width);
            &&& f.len() == width
            &&& exists|n: int|
                {
                    &&& 0 <= n < width
                    &&& n <= b.len()
                    &&& #[trigger] utf8::is_char_boundary(b, n)
                    &&& f.subrange(0, n) == b.subrange(0, n)
                    &&& forall|i: int| n <= i < width ==> #[trigger] f[i] == 0
                    &&& forall|more: int|
                        n < more < width && more <= b.len() ==> !(#[trigger] utf8::is_char_boundary(
                            b,
                            more,
                        ))
                }
        }),
{
    let b = utf8::encode_utf8(s);
    let f = ipc::text_field(s, width);
    ipc::lemma_text_field(s, width);
    let n = ipc::fitting(b, width);
    assert(f.subrange(0, n) =~= b.subrange(0, n));
    assert forall|more: int| n < more < width && more <= b.len() implies !(
    #[trigger] utf8::is_char_boundary(b, more)) by {
        if b.len() >= width {
            lemma_boundary(b, width - 1, more);
        }
    }
    assert(utf8::is_char_boundary(b, n));
}

proof fn lemma_boundary(b: Seq<u8>, n: int, more: int)
    requires
        ipc::boundary_within(b, n) < more <= n,
    ensures
        !utf8::is_char_boundary(b, more),
    decreases n,
{
    if n > 0 && !utf8::is_char_boundary(b, n) && more < n {
        lemma_boundary(b, n - 1, more);
    }
}

/// Reading a field stops at the first zero, wherever that is, and not before.
pub proof fn law_fields_end_at_the_first_zero(a: Seq<u8>, rest: Seq<u8>)
    requires
        forall|i: int| 0 <= i < a.len() ==> #[trigger] a[i] != 0,
        rest.len() > 0 ==> rest[0] == 0,
    ensures
        ipc::until_nul(a + rest) == a,
    decreases a.len(),
{
    let all = a + rest;
    if a.len() == 0 {
        assert(ipc::until_nul(all) =~= a);
    } else {
        let b = a.drop_first();
        assert(all.drop_first() =~= b + rest);
        assert forall|i: int| 0 <= i < b.len() implies #[trigger] b[i] != 0 by {
            assert(b[i] == a[i + 1]);
        }
        law_fields_end_at_the_first_zero(b, rest);
        assert(ipc::until_nul(all) =~= a);
    }
}

/// A frame is its length, in four bytes, and its body. What says that it is empty, or longer than
/// sixteen kibibytes, is refused whatever follows.
pub proof fn law_frames_say_how_long_they_are(body: Seq<u8>, buf: Seq<u8>)
    requires
        body.len() < 0x1_0000_0000,
    ensures
        ipc::framed(body).len() == 4 + body.len(),
        num(ipc::framed(body), 0, 4) == body.len(),
        ipc::framed(body).subrange(4, 4 + body.len() as int) == body,
        ipc::front_frame(buf) is Err <==> buf.len() >= 4 && (num(buf, 0, 4) == 0 || num(buf, 0, 4)
            > 16 * 1024),
        ipc::front_frame(buf) matches Ok(Some(n)) ==> n == num(buf, 0, 4) && 4 + n <= buf.len(),
        ipc::front_frame(buf) matches Ok(None) ==> buf.len() < 4 || buf.len() < 4 + num(buf, 0, 4),
{
    let f = ipc::framed(body);
    assert(f.subrange(0, 4) =~= bytes::bytes32(body.len() as u32));
    lemma_word(f, 0, body.len() as u32);
    assert(f.subrange(4, 4 + body.len() as int) =~= body);
    law_numbers_are_little_endian(buf, 0);
}

// ---------------------------------------------------------------------------------------------
// Snapshots
// ---------------------------------------------------------------------------------------------

proof fn lemma_entry(e: SnapshotEntry)
    ensures
        ({
            let b = ipc::entry_bytes(e);
            &&& b.len() == 32
            &&& num(b, 0, 4) == e.player_id
            &&& b[4] == e.pose.map.group && b[5] == e.pose.map.num
            &&& num(b, 6, 2) == wrapped(e.pose.x)
            &&& num(b, 8, 2) == wrapped(e.pose.y)
            &&& b[10] == e.pose.facing && b[11] == e.graphics_id && b[12] == e.pose.elevation
            &&& b[13] == (if e.pose.moving {
                1u8
            } else {
                0u8
            })
            &&& b.subrange(14, 30) == ipc::text_field(e.name@, 16)
            &&& b[30] == 0 && b[31] == 0
        }),
{
    let b = ipc::entry_bytes(e);
    ipc::lemma_text_field(e.name@, 16);
    assert(b.subrange(0, 4) =~= bytes::bytes32(e.player_id));
    lemma_word(b, 0, e.player_id);
    lemma_wrapped(e.pose.x);
    lemma_wrapped(e.pose.y);
    assert(b.subrange(6, 8) =~= bytes::bytes16(e.pose.x as u16));
    lemma_half(b, 6, e.pose.x as u16);
    assert(b.subrange(8, 10) =~= bytes::bytes16(e.pose.y as u16));
    lemma_half(b, 8, e.pose.y as u16);
    assert(b.subrange(14, 30) =~= ipc::text_field(e.name@, 16));
}

/// Each player of a snapshot is described in thirty-two bytes of their own, every field at the place
/// where the game looks for it.
pub proof fn law_entries_stand_where_the_game_looks(players: Seq<SnapshotEntry>, i: int)
    requires
        0 <= i < players.len(),
    ensures
        ({
            let all = ipc::entries_bytes(players);
            let b = all.subrange(32 * i, 32 * i + 32);
            let e = players[i];
            &&& all.len() == 32 * players.len()
            &&& num(b, 0, 4) == e.player_id
            &&& b[4] == e.pose.map.group && b[5] == e.pose.map.num
            &&& num(b, 6, 2) == wrapped(e.pose.x)
            &&& num(b, 8, 2) == wrapped(e.pose.y)
            &&& b[10] == e.pose.facing && b[11] == e.graphics_id && b[12] == e.pose.elevation
            &&& b[13] == (if e.pose.moving {
                1u8
            } else {
                0u8
            })
            &&& b.subrange(14, 30) == ipc::text_field(e.name@, 16)
            &&& b[30] == 0 && b[31] == 0
        }),
    decreases players.len(),
{
    ipc::law_entries_have_a_fixed_stride(players);
    let less = players.drop_last();
    ipc::law_entries_have_a_fixed_stride(less);
    let all = ipc::entries_bytes(players);
    lemma_entry(players.last());
    if i == players.len() - 1 {
        assert(all.subrange(32 * i, 32 * i + 32) =~= ipc::entry_bytes(players[i]));
    } else {
        law_entries_stand_where_the_game_looks(less, i);
        assert(all.subrange(32 * i, 32 * i + 32) =~= ipc::entries_bytes(less).subrange(
            32 * i,
            32 * i + 32,
        ));
    }
}

// ---------------------------------------------------------------------------------------------
// What the game says
// ---------------------------------------------------------------------------------------------

/// What a message of the game says stands at fixed places behind the byte that tells its type; one
/// that is too short for them is refused, and so is one of a type that is not known.
pub proof fn law_game_messages_are_read_by_the_byte(body: Seq<u8>)
    ensures
        ({
            let r = ipc::decoded(body);
            let kind = body[0];
            &&& body.len() == 0 ==> r is Err
            &&& body.len() > 0 ==> {
                &&& !(0x81 <= kind <= 0x8A) ==> r == Err::<GameMessageView, IpcError>(
                    IpcError::UnknownType(kind),
                )
                &&& kind == 0x81 ==> (r is Ok <==> body.len() >= 11)
                &&& kind == 0x81 && body.len() >= 11 ==> (r->Ok_0 matches GameMessageView::SelfState {
                    pose,
                    graphics_id,
                } && pose.map.group == body[1] && pose.map.num == body[2] && wrapped(pose.x) == num(
                    body,
                    3,
                    2,
                ) && wrapped(pose.y) == num(body, 5, 2) && pose.facing == body[7] && pose.moving == (
                body[8] != 0) && graphics_id == body[9] && pose.elevation == body[10])
                &&& kind == 0x82 ==> r == Ok::<GameMessageView, IpcError>(
                    GameMessageView::BeginLogin,
                )
                &&& kind == 0x83 ==> r == Ok::<GameMessageView, IpcError>(
                    GameMessageView::CancelLogin,
                )
                &&& kind == 0x84 ==> (r is Ok <==> body.len() >= 226)
                &&& kind == 0x84 && body.len() >= 226 ==> (r->Ok_0 matches GameMessageView::ChatSend {
                    kind: k,
                    target,
                    text,
                } && k == body[1] && target == ipc::lossy_text(
                    ipc::until_nul(body.subrange(2, 26)),
                ) && text == ipc::lossy_text(ipc::until_nul(body.subrange(26, 226))))
                &&& kind == 0x85 ==> r == Ok::<GameMessageView, IpcError>(GameMessageView::Logout)
                &&& kind == 0x86 ==> (r is Ok <==> body.len() >= 5)
                &&& kind == 0x86 && body.len() >= 5 ==> (r->Ok_0 matches GameMessageView::RequestBattle {
                    target,
                } && target == num(body, 1, 4))
                &&& kind == 0x87 ==> (r is Ok <==> body.len() >= 6)
                &&& kind == 0x87 && body.len() >= 6 ==> (r->Ok_0 matches GameMessageView::RespondToBattle {
                    from,
                    accepted,
                } && from == num(body, 1, 4) && accepted == (body[5] != 0))
                &&& kind == 0x88 ==> (r is Ok <==> body.len() >= 11 && body.len() >= 11 + num(
                    body,
                    9,
                    2,
                ) && num(body, 1, 4) + num(body, 9, 2) <= num(body, 5, 4))
                &&& kind == 0x88 && r is Ok ==> (r->Ok_0 matches GameMessageView::SaveChunk {
                    offset,
                    total,
                    bytes,
                } && offset == num(body, 1, 4) && total == num(body, 5, 4) && bytes
                    == body.subrange(11, 11 + num(body, 9, 2)))
                &&& kind == 0x89 ==> (r is Ok <==> body.len() >= 3 && body.len() >= 3 + num(
                    body,
                    1,
                    2,
                ))
                &&& kind == 0x89 && r is Ok ==> (r->Ok_0 matches GameMessageView::LinkBlock {
                    bytes,
                } && bytes == body.subrange(3, 3 + num(body, 1, 2)))
                &&& kind == 0x8A ==> r == Ok::<GameMessageView, IpcError>(
                    GameMessageView::BattleEnded,
                )
            }
        }),
{
    if body.len() > 0 {
        let rest = body.drop_first();
        lemma_shifted(body, 0);
        lemma_shifted(body, 2);
        lemma_shifted(body, 4);
        lemma_shifted(body, 8);
        lemma_unwrapped(bytes::le16(rest, 2));
        lemma_unwrapped(bytes::le16(rest, 4));
        if body.len() >= 226 {
            assert(rest.subrange(1, 25) =~= body.subrange(2, 26));
            assert(rest.subrange(25, 225) =~= body.subrange(26, 226));
        }
        let n = num(body, 9, 2);
        if body.len() >= 11 + n && body.len() >= 11 {
            assert(rest.subrange(10, 10 + n) =~= body.subrange(11, 11 + n));
        }
        let m = num(body, 1, 2);
        if body.len() >= 3 + m && body.len() >= 3 {
            assert(rest.subrange(2, 2 + m) =~= body.subrange(3, 3 + m));
        }
    }
}

proof fn lemma_shifted(body: Seq<u8>, at: int)
    requires
        body.len() > 0,
        0 <= at,
    ensures
        at + 3 <= body.len() ==> bytes::le16(body.drop_first(), at) == num(body, at + 1, 2),
        at + 5 <= body.len() ==> bytes::le32(body.drop_first(), at) == num(body, at + 1, 4),
{
    law_numbers_are_little_endian(body, at + 1);
    let rest = body.drop_first();
    if at + 3 <= body.len() {
        assert(rest[at] == body[at + 1] && rest[at + 1] == body[at + 2]);
    }
    if at + 5 <= body.len() {
        assert(rest[at + 2] == body[at + 3] && rest[at + 3] == body[at + 4]);
    }
}

} // verus!
