//! Loopback framing between the sidecar and the game client.
//!
//! Every record is fixed size, little-endian, with no varints, no pointers and no length-prefixed
//! strings. Text fields are NUL-padded byte arrays.
//!
//! Frame layout: `u32 length` (counts everything after itself) followed by `u8 msg_type` and a
//! payload whose size is fixed per type.

use super::quic::CharacterProfile;
use super::{MapId, PlayerId, Pose};
use crate::bytes;
use crate::text;
use vstd::prelude::*;
use vstd::utf8;

verus! {

pub const NAME_LEN: usize = 16;

pub const SENDER_LEN: usize = 24;

pub const TEXT_LEN: usize = 200;

pub const URL_LEN: usize = 192;

/// Refuse frames larger than this: a desynced stream must fail loudly rather than allocate wildly.
pub const MAX_FRAME: usize = 16 * 1024;

pub const MSG_STATUS: u8 = 0x01;

pub const MSG_SNAPSHOT: u8 = 0x02;

pub const MSG_CHAT: u8 = 0x03;

pub const MSG_PROFILE: u8 = 0x04;

/// Someone challenged this player.
pub const MSG_BATTLE_INVITE: u8 = 0x05;

pub const MSG_BATTLE_ANSWERED: u8 = 0x06;

pub const MSG_BATTLE_FAILED: u8 = 0x07;

/// A slice of the server's copy of the save: u32 offset, u32 total, u16 len, bytes.
pub const MSG_SAVE_IMAGE: u8 = 0x08;

/// Both players agreed to battle.
pub const MSG_BATTLE_STARTING: u8 = 0x09;

/// The server refused a step and this is where the player really is.
pub const MSG_CORRECTION: u8 = 0x0A;

/// One block of link-battle traffic from the opponent: u8 from_slot, u16 len, bytes.
pub const MSG_LINK_BLOCK: u8 = 0x0B;

pub const MSG_SELF_STATE: u8 = 0x81;

pub const MSG_BEGIN_LOGIN: u8 = 0x82;

pub const MSG_CANCEL_LOGIN: u8 = 0x83;

pub const MSG_CHAT_SEND: u8 = 0x84;

pub const MSG_LOGOUT: u8 = 0x85;

/// Challenge another player: u32 player id.
pub const MSG_BATTLE_REQUEST: u8 = 0x86;

/// Answer a challenge: u32 player id, u8 accepted.
pub const MSG_BATTLE_RESPOND: u8 = 0x87;

/// A slice of the save: u32 offset, u32 total, u16 len, bytes.
pub const MSG_SAVE_CHUNK: u8 = 0x88;

/// One block of link-battle traffic for the opponent: u16 len, bytes.
pub const MSG_LINK_BLOCK_SEND: u8 = 0x89;

/// The battle this player was in has finished. No payload.
pub const MSG_BATTLE_ENDED: u8 = 0x8A;

pub const AUTH_OFFLINE: u8 = 0;

pub const AUTH_CONNECTING: u8 = 1;

pub const AUTH_NEEDS_LOGIN: u8 = 2;

pub const AUTH_AWAITING_BROWSER: u8 = 3;

pub const AUTH_ONLINE: u8 = 4;

/// This character signed in elsewhere.
pub const AUTH_SUPERSEDED: u8 = 5;

pub const CHAT_GLOBAL: u8 = 0;

pub const CHAT_LOCAL: u8 = 1;

pub const CHAT_PRIVATE: u8 = 2;

/// Serialized size of one entry in a snapshot frame.
pub const REMOTE_PLAYER_SIZE: usize = 32;

// ---------------------------------------------------------------------------------------------
// Text fields
// ---------------------------------------------------------------------------------------------

/// The largest character boundary of these bytes that is at most `n`.
pub open spec fn boundary_within(b: Seq<u8>, n: int) -> int
    decreases n,
{
    if n <= 0 {
        0
    } else if utf8::is_char_boundary(b, n) {
        n
    } else {
        boundary_within(b, n - 1)
    }
}

/// How many bytes of a text fit into a field: all of them where that leaves room for a NUL, else
/// as many whole characters as do.
pub open spec fn fitting(b: Seq<u8>, width: int) -> int {
    if b.len() >= width {
        boundary_within(b, width - 1)
    } else {
        b.len() as int
    }
}

/// `n` zero bytes.
pub open spec fn zeros(n: int) -> Seq<u8> {
    Seq::new(n as nat, |i: int| 0u8)
}

/// A text in a fixed NUL-padded field.
pub open spec fn text_field(s: Seq<char>, width: int) -> Seq<u8> {
    let b = utf8::encode_utf8(s);
    let n = fitting(b, width);
    b.subrange(0, n) + zeros(width - n)
}

/// The bytes up to the first NUL.
pub open spec fn until_nul(b: Seq<u8>) -> Seq<u8>
    decreases b.len(),
{
    if b.len() == 0 || b[0] == 0 {
        Seq::empty()
    } else {
        seq![b[0]] + until_nul(b.drop_first())
    }
}

/// The text that `String::from_utf8_lossy` of std makes of these bytes.
pub uninterp spec fn lossy_text(b: Seq<u8>) -> Seq<char>;

/// `String::from_utf8_lossy` of std: bytes that are UTF-8 are decoded, and what it makes of
/// others is a function of the bytes alone, called `lossy_text`.
#[verifier::external_body]
fn from_utf8_lossy(b: &[u8]) -> (r: String)
    ensures
        r@ == lossy_text(b@),
        utf8::valid_utf8(b@) ==> r@ == utf8::decode_utf8(b@),
{
    String::from_utf8_lossy(b).into_owned()
}

proof fn lemma_boundary_within(b: Seq<u8>, n: int)
    requires
        utf8::valid_utf8(b),
        n <= b.len(),
    ensures
        0 <= boundary_within(b, n) <= if n < 0 { 0 } else { n },
        utf8::is_char_boundary(b, boundary_within(b, n)),
    decreases n,
{
    utf8::is_char_boundary_start_end_of_seq(b);
    if n > 0 {
        lemma_boundary_within(b, n - 1);
    }
}

/// A text takes up the whole of its field, and at least one NUL ends it.
pub proof fn lemma_text_field(s: Seq<char>, width: int)
    requires
        width > 0,
    ensures
        text_field(s, width).len() == width,
        0 <= fitting(utf8::encode_utf8(s), width) < width,
        fitting(utf8::encode_utf8(s), width) <= utf8::encode_utf8(s).len(),
        utf8::is_char_boundary(
            utf8::encode_utf8(s),
            fitting(utf8::encode_utf8(s), width),
        ),
{
    let b = utf8::encode_utf8(s);
    utf8::encode_utf8_valid_utf8(s);
    utf8::is_char_boundary_start_end_of_seq(b);
    if b.len() >= width {
        lemma_boundary_within(b, width - 1);
    }
}

/// Copies `s` into a fixed NUL-padded field, truncating on a char boundary.
fn put_str(out: &mut Vec<u8>, s: &str, width: usize)
    requires
        width > 0,
    ensures
        final(out)@ == old(out)@ + text_field(s@, width as int),
{
    proof {
        lemma_text_field(s@, width as int);
    }
    let all: &[u8] = s.as_bytes();
    let mut cut: usize = all.len();
    if cut >= width {
        // Never split a multi-byte character; walk back to a boundary.
        cut = width - 1;
        while cut > 0 && !s.is_char_boundary(cut)
            invariant
                cut < width,
                boundary_within(utf8::encode_utf8(s@), width - 1) == boundary_within(
                    utf8::encode_utf8(s@),
                    cut as int,
                ),
            decreases cut,
        {
            cut = cut - 1;
        }
    }
    let ghost n = fitting(utf8::encode_utf8(s@), width as int);
    assert(cut == n);
    let ghost before = out@;
    bytes::push_all(out, vstd::slice::slice_subrange(all, 0, cut));
    let mut i: usize = cut;
    while i < width
        invariant
            cut <= i <= width,
            cut == n,
            out@ =~= before + utf8::encode_utf8(s@).subrange(0, n) + zeros(i - n),
        decreases width - i,
    {
        out.push(0);
        i = i + 1;
    }
    assert(out@ =~= before + text_field(s@, width as int));
}

/// The text in a fixed NUL-padded field.
fn take_str(b: &[u8]) -> (r: String)
    ensures
        r@ == lossy_text(until_nul(b@)),
        utf8::valid_utf8(until_nul(b@)) ==> r@ == utf8::decode_utf8(until_nul(b@)),
{
    assert(b@.subrange(0, b@.len() as int) =~= b@);
    let mut end: usize = 0;
    while end < b.len() && b[end] != 0
        invariant
            end <= b@.len(),
            until_nul(b@) =~= b@.subrange(0, end as int) + until_nul(
                b@.subrange(end as int, b@.len() as int),
            ),
        decreases b@.len() - end,
    {
        assert(b@.subrange(end as int, b@.len() as int).drop_first() =~= b@.subrange(
            end + 1,
            b@.len() as int,
        ));
        end = end + 1;
    }
    assert(until_nul(b@) =~= b@.subrange(0, end as int));
    from_utf8_lossy(vstd::slice::slice_subrange(b, 0, end))
}

// ---------------------------------------------------------------------------------------------
// Frames
// ---------------------------------------------------------------------------------------------

/// Why a frame was refused.
#[derive(Debug, Clone, Copy, PartialEq, Eq, Structural)]
pub enum IpcError {
    /// The length prefix is zero or too large.
    ImplausibleLength(u32),
    Empty,
    ShortLinkBlock,
    TruncatedLinkBlock,
    ShortSelfState(usize),
    ShortBattleRequest(usize),
    ShortBattleRespond(usize),
    ShortSaveChunk(usize),
    /// The chunk says it carries more bytes than it does.
    SaveChunkClaims { len: u16, carries: usize },
    /// The chunk runs past the end it declares.
    SaveChunkExceeds { offset: u32, len: u16, total: u32 },
    ShortChatSend(usize),
    UnknownType(u8),
}

/// An upper-case hexadecimal digit.
pub open spec fn hex_digit(d: int) -> char {
    if d < 10 {
        (0x30 + d) as char
    } else {
        (0x41 + d - 10) as char
    }
}

impl IpcError {
    pub open spec fn text(self) -> Seq<char> {
        match self {
            IpcError::ImplausibleLength(n) => "implausible IPC frame length "@ + text::dec(n as nat),
            IpcError::Empty => "empty IPC frame"@,
            IpcError::ShortLinkBlock => "short link block"@,
            IpcError::TruncatedLinkBlock => "truncated link block"@,
            IpcError::ShortSelfState(n) => "short SELF_STATE frame ("@ + text::dec(n as nat)
                + " bytes)"@,
            IpcError::ShortBattleRequest(n) => "short BATTLE_REQUEST frame ("@ + text::dec(n as nat)
                + " bytes)"@,
            IpcError::ShortBattleRespond(n) => "short BATTLE_RESPOND frame ("@ + text::dec(n as nat)
                + " bytes)"@,
            IpcError::ShortSaveChunk(n) => "short SAVE_CHUNK header ("@ + text::dec(n as nat)
                + " bytes)"@,
            IpcError::SaveChunkClaims { len, carries } => "SAVE_CHUNK claims "@ + text::dec(
                len as nat,
            ) + " bytes but carries "@ + text::dec(carries as nat),
            IpcError::SaveChunkExceeds { offset, len, total } => "SAVE_CHUNK at "@ + text::dec(
                offset as nat,
            ) + "+"@ + text::dec(len as nat) + " exceeds its total of "@ + text::dec(total as nat),
            IpcError::ShortChatSend(n) => "short CHAT_SEND frame ("@ + text::dec(n as nat)
                + " bytes)"@,
            IpcError::UnknownType(t) => "unknown IPC message type 0x"@.push(
                hex_digit(t as int / 16),
            ).push(hex_digit(t as int % 16)),
        }
    }

    /// What is reported of the refusal.
    pub fn message(&self) -> (r: String)
        ensures
            r@ == self.text(),
    {
        match *self {
            IpcError::ImplausibleLength(n) => {
                let mut s = "implausible IPC frame length ".to_owned();
                text::push_dec(&mut s, n as u64);
                s
            },
            IpcError::Empty => "empty IPC frame".to_owned(),
            IpcError::ShortLinkBlock => "short link block".to_owned(),
            IpcError::TruncatedLinkBlock => "truncated link block".to_owned(),
            IpcError::ShortSelfState(n) => say_short("short SELF_STATE frame (", n),
            IpcError::ShortBattleRequest(n) => say_short("short BATTLE_REQUEST frame (", n),
            IpcError::ShortBattleRespond(n) => say_short("short BATTLE_RESPOND frame (", n),
            IpcError::ShortSaveChunk(n) => say_short("short SAVE_CHUNK header (", n),
            IpcError::SaveChunkClaims { len, carries } => {
                let mut s = "SAVE_CHUNK claims ".to_owned();
                text::push_dec(&mut s, len as u64);
                text::push_text(&mut s, " bytes but carries ");
                text::push_dec(&mut s, carries as u64);
                s
            },
            IpcError::SaveChunkExceeds { offset, len, total } => {
                let mut s = "SAVE_CHUNK at ".to_owned();
                text::push_dec(&mut s, offset as u64);
                text::push_text(&mut s, "+");
                text::push_dec(&mut s, len as u64);
                text::push_text(&mut s, " exceeds its total of ");
                text::push_dec(&mut s, total as u64);
                s
            },
            IpcError::ShortChatSend(n) => say_short("short CHAT_SEND frame (", n),
            IpcError::UnknownType(t) => {
                let mut s = "unknown IPC message type 0x".to_owned();
                s.push(hex_of(t / 16));
                s.push(hex_of(t % 16));
                s
            },
        }
    }
}

fn hex_of(d: u8) -> (r: char)
    requires
        d < 16,
    ensures
        r == hex_digit(d as int),
{
    if d < 10 {
        (0x30u8 + d) as char
    } else {
        (0x41u8 + (d - 10)) as char
    }
}

fn say_short(head: &str, n: usize) -> (r: String)
    ensures
        r@ == head@ + text::dec(n as nat) + " bytes)"@,
{
    let mut s = head.to_owned();
    text::push_dec(&mut s, n as u64);
    text::push_text(&mut s, " bytes)");
    s
}

/// A message body behind its length prefix.
pub open spec fn framed(body: Seq<u8>) -> Seq<u8> {
    bytes::bytes32((body.len() % 0x1_0000_0000) as u32) + body
}

/// Wraps a message body in its length prefix.
pub fn frame(body: Vec<u8>) -> (r: Vec<u8>)
    ensures
        r@ == framed(body@),
{
    let mut out: Vec<u8> = Vec::new();
    bytes::push32(&mut out, (body.len() as u64 % 0x1_0000_0000) as u32);
    bytes::push_all(&mut out, &body);
    assert(out@ =~= framed(body@));
    out
}

/// The frame at the front of a buffer: refused, not whole yet, or this long.
pub open spec fn front_frame(buf: Seq<u8>) -> Result<Option<int>, IpcError> {
    if buf.len() < 4 {
        Ok(None)
    } else {
        let len = bytes::le32(buf, 0);
        if len == 0 || len > 16384 {
            Err(IpcError::ImplausibleLength(len))
        } else if buf.len() < 4 + len {
            Ok(None)
        } else {
            Ok(Some(len as int))
        }
    }
}

/// Splits one complete frame off the front of `buf`, if there is one.
///
/// Returns the message body (type byte first). Leaves `buf` untouched when the frame is still
/// partial, so the caller can just append more bytes and retry.
pub fn take_frame(buf: &mut Vec<u8>) -> (r: Result<Option<Vec<u8>>, IpcError>)
    ensures
        match front_frame(old(buf)@) {
            Err(e) => r == Err::<Option<Vec<u8>>, IpcError>(e) && final(buf)@ == old(buf)@,
            Ok(None) => r == Ok::<Option<Vec<u8>>, IpcError>(None) && final(buf)@ == old(buf)@,
            Ok(Some(len)) => {
                &&& r matches Ok(Some(body))
                &&& body@ == old(buf)@.subrange(4, 4 + len)
                &&& final(buf)@ == old(buf)@.subrange(4 + len, old(buf)@.len() as int)
            },
        },
{
    if buf.len() < 4 {
        return Ok(None);
    }
    let len: u32 = bytes::get32(buf, 0);
    if len == 0 || len as usize > MAX_FRAME {
        return Err(IpcError::ImplausibleLength(len));
    }
    let end: usize = 4 + len as usize;
    if buf.len() < end {
        return Ok(None);
    }
    let body: Vec<u8> = bytes::copy_range(buf, 4, len as usize);
    let rest: Vec<u8> = buf.split_off(end);
    *buf = rest;
    Ok(Some(body))
}

// ---------------------------------------------------------------------------------------------
// Sidecar to game
// ---------------------------------------------------------------------------------------------

/// A flag as the game reads it.
pub open spec fn flag_byte(b: bool) -> u8 {
    if b {
        1
    } else {
        0
    }
}

fn flag_of(b: bool) -> (r: u8)
    ensures
        r == flag_byte(b),
{
    if b {
        1
    } else {
        0
    }
}

/// Someone has challenged this player. Carries who, so the answer can name them and be routed
/// back to the right person.
pub fn encode_battle_invite(from: PlayerId, from_name: &str) -> (r: Vec<u8>)
    ensures
        r@ == framed(
            seq![MSG_BATTLE_INVITE] + bytes::bytes32(from) + text_field(from_name@, 16),
        ),
{
    let mut b: Vec<u8> = vec![MSG_BATTLE_INVITE];
    assert(b@ =~= seq![MSG_BATTLE_INVITE]);
    bytes::push32(&mut b, from);
    put_str(&mut b, from_name, NAME_LEN);
    frame(b)
}

/// The outcome of a challenge this player sent.
pub fn encode_battle_answered(from: PlayerId, from_name: &str, accepted: bool) -> (r: Vec<u8>)
    ensures
        r@ == framed(
            seq![MSG_BATTLE_ANSWERED, flag_byte(accepted)] + bytes::bytes32(from) + text_field(
                from_name@,
                16,
            ),
        ),
{
    let mut b: Vec<u8> = vec![MSG_BATTLE_ANSWERED, flag_of(accepted)];
    assert(b@ =~= seq![MSG_BATTLE_ANSWERED, flag_byte(accepted)]);
    bytes::push32(&mut b, from);
    put_str(&mut b, from_name, NAME_LEN);
    frame(b)
}

/// A challenge could not be delivered: they left, or are already busy.
pub fn encode_battle_failed(reason: &str) -> (r: Vec<u8>)
    ensures
        r@ == framed(seq![MSG_BATTLE_FAILED] + text_field(reason@, 200)),
{
    let mut b: Vec<u8> = vec![MSG_BATTLE_FAILED];
    assert(b@ =~= seq![MSG_BATTLE_FAILED]);
    put_str(&mut b, reason, TEXT_LEN);
    frame(b)
}

/// A slice of the server's save, on its way to the game. The length field holds sixteen bits.
pub fn encode_save_image(offset: u32, total: u32, data: &[u8]) -> (r: Vec<u8>)
    ensures
        r@ == framed(
            seq![MSG_SAVE_IMAGE] + bytes::bytes32(offset) + bytes::bytes32(total) + bytes::bytes16(
                (data@.len() % 0x1_0000) as u16,
            ) + data@,
        ),
{
    let mut b: Vec<u8> = vec![MSG_SAVE_IMAGE];
    assert(b@ =~= seq![MSG_SAVE_IMAGE]);
    bytes::push32(&mut b, offset);
    bytes::push32(&mut b, total);
    bytes::push16(&mut b, (data.len() % 0x1_0000) as u16);
    bytes::push_all(&mut b, data);
    frame(b)
}

/// Both players agreed to battle.
pub fn encode_battle_starting(opponent: PlayerId, opponent_name: &str, link_id: u8) -> (r: Vec<u8>)
    ensures
        r@ == framed(
            seq![MSG_BATTLE_STARTING, link_id] + bytes::bytes32(opponent) + text_field(
                opponent_name@,
                16,
            ),
        ),
{
    let mut b: Vec<u8> = vec![MSG_BATTLE_STARTING, link_id];
    assert(b@ =~= seq![MSG_BATTLE_STARTING, link_id]);
    bytes::push32(&mut b, opponent);
    put_str(&mut b, opponent_name, NAME_LEN);
    frame(b)
}

/// Puts the player back where the server says they are.
pub fn encode_correction(pose: &Pose) -> (r: Vec<u8>)
    ensures
        r@ == framed(
            seq![MSG_CORRECTION, pose.map.group, pose.map.num] + bytes::bytes16(pose.x as u16)
                + bytes::bytes16(pose.y as u16) + seq![pose.facing, pose.elevation],
        ),
{
    let mut b: Vec<u8> = vec![MSG_CORRECTION, pose.map.group, pose.map.num];
    assert(b@ =~= seq![MSG_CORRECTION, pose.map.group, pose.map.num]);
    bytes::push16(&mut b, pose.x as u16);
    bytes::push16(&mut b, pose.y as u16);
    let ghost head = b@;
    b.push(pose.facing);
    b.push(pose.elevation);
    assert(b@ =~= head + seq![pose.facing, pose.elevation]);
    frame(b)
}

/// How the player is authenticated, under which name, and where to sign in.
pub fn encode_status(state: u8, name: &str, login_url: &str) -> (r: Vec<u8>)
    ensures
        r@ == framed(
            seq![MSG_STATUS, state] + text_field(name@, 16) + text_field(login_url@, 192),
        ),
{
    let mut b: Vec<u8> = vec![MSG_STATUS, state];
    assert(b@ =~= seq![MSG_STATUS, state]);
    put_str(&mut b, name, NAME_LEN);
    put_str(&mut b, login_url, URL_LEN);
    frame(b)
}

/// One other player as the game is told of them.
pub struct SnapshotEntry {
    pub player_id: PlayerId,
    pub name: String,
    pub graphics_id: u8,
    pub pose: Pose,
}

/// One entry of a snapshot, padded to the fixed stride so that the game can index without
/// parsing.
pub open spec fn entry_bytes(e: SnapshotEntry) -> Seq<u8> {
    bytes::bytes32(e.player_id) + seq![e.pose.map.group, e.pose.map.num] + bytes::bytes16(
        e.pose.x as u16,
    ) + bytes::bytes16(e.pose.y as u16) + seq![
        e.pose.facing,
        e.graphics_id,
        e.pose.elevation,
        flag_byte(e.pose.moving),
    ] + text_field(e.name@, 16) + seq![0u8, 0u8]
}

/// The entries of a snapshot, one after the other.
pub open spec fn entries_bytes(players: Seq<SnapshotEntry>) -> Seq<u8>
    decreases players.len(),
{
    if players.len() == 0 {
        Seq::empty()
    } else {
        entries_bytes(players.drop_last()) + entry_bytes(players.last())
    }
}

/// Every entry of a snapshot takes up the same number of bytes, so the `i`th starts at a place
/// that can be computed.
pub proof fn law_entries_have_a_fixed_stride(players: Seq<SnapshotEntry>)
    ensures
        entries_bytes(players).len() == players.len() * REMOTE_PLAYER_SIZE,
    decreases players.len(),
{
    if players.len() > 0 {
        law_entries_have_a_fixed_stride(players.drop_last());
        lemma_text_field(players.last().name@, 16);
    }
}

fn put_entry(b: &mut Vec<u8>, p: &SnapshotEntry)
    ensures
        final(b)@ == old(b)@ + entry_bytes(*p),
{
    let ghost before = b@;
    bytes::push32(b, p.player_id);
    b.push(p.pose.map.group);
    b.push(p.pose.map.num);
    bytes::push16(b, p.pose.x as u16);
    bytes::push16(b, p.pose.y as u16);
    b.push(p.pose.facing);
    b.push(p.graphics_id);
    b.push(p.pose.elevation);
    b.push(flag_of(p.pose.moving));
    put_str(b, &p.name, NAME_LEN);
    b.push(0);
    b.push(0);
    assert(b@ =~= before + entry_bytes(*p));
}

/// The other players that the game shall draw.
pub fn encode_snapshot(players: &[SnapshotEntry]) -> (r: Vec<u8>)
    ensures
        r@ == framed(
            seq![MSG_SNAPSHOT] + bytes::bytes16((players@.len() % 0x1_0000) as u16)
                + entries_bytes(players@),
        ),
{
    let mut b: Vec<u8> = vec![MSG_SNAPSHOT];
    assert(b@ =~= seq![MSG_SNAPSHOT]);
    bytes::push16(&mut b, (players.len() % 0x1_0000) as u16);
    let ghost head = b@;
    let mut i: usize = 0;
    while i < players.len()
        invariant
            i <= players@.len(),
            b@ =~= head + entries_bytes(players@.subrange(0, i as int)),
        decreases players@.len() - i,
    {
        put_entry(&mut b, &players[i]);
        assert(players@.subrange(0, i + 1).drop_last() =~= players@.subrange(0, i as int));
        i = i + 1;
    }
    assert(players@.subrange(0, i as int) =~= players@);
    frame(b)
}

/// The save summary the sign-in screen displays. Fixed layout, so the game reads it field by
/// field with no parser.
pub fn encode_profile(profile: &CharacterProfile) -> (r: Vec<u8>)
    ensures
        r@ == framed(
            seq![MSG_PROFILE, profile.graphics_id, profile.badges] + bytes::bytes16(
                profile.pokedex_caught,
            ) + bytes::bytes16(profile.pokedex_seen) + bytes::bytes32(profile.play_time_seconds)
                + bytes::bytes32(profile.money) + seq![profile.map_group, profile.map_num]
                + bytes::bytes16(profile.x as u16) + bytes::bytes16(profile.y as u16) + text_field(
                profile.name@,
                16,
            ),
        ),
{
    let mut b: Vec<u8> = vec![MSG_PROFILE, profile.graphics_id, profile.badges];
    assert(b@ =~= seq![MSG_PROFILE, profile.graphics_id, profile.badges]);
    bytes::push16(&mut b, profile.pokedex_caught);
    bytes::push16(&mut b, profile.pokedex_seen);
    bytes::push32(&mut b, profile.play_time_seconds);
    bytes::push32(&mut b, profile.money);
    let ghost head = b@;
    b.push(profile.map_group);
    b.push(profile.map_num);
    assert(b@ =~= head + seq![profile.map_group, profile.map_num]);
    bytes::push16(&mut b, profile.x as u16);
    bytes::push16(&mut b, profile.y as u16);
    put_str(&mut b, &profile.name, NAME_LEN);
    frame(b)
}

/// A line of chat.
pub fn encode_chat(kind: u8, from: &str, said: &str) -> (r: Vec<u8>)
    ensures
        r@ == framed(seq![MSG_CHAT, kind] + text_field(from@, 24) + text_field(said@, 200)),
{
    let mut b: Vec<u8> = vec![MSG_CHAT, kind];
    assert(b@ =~= seq![MSG_CHAT, kind]);
    put_str(&mut b, from, SENDER_LEN);
    put_str(&mut b, said, TEXT_LEN);
    frame(b)
}

/// One block of battle traffic for the game, filed under the sender's link slot. The length
/// field holds sixteen bits.
pub fn encode_link_block(from_slot: u8, data: &[u8]) -> (r: Vec<u8>)
    ensures
        r@ == framed(
            seq![MSG_LINK_BLOCK, from_slot] + bytes::bytes16((data@.len() % 0x1_0000) as u16)
                + data@,
        ),
{
    let mut b: Vec<u8> = vec![MSG_LINK_BLOCK, from_slot];
    assert(b@ =~= seq![MSG_LINK_BLOCK, from_slot]);
    bytes::push16(&mut b, (data.len() % 0x1_0000) as u16);
    bytes::push_all(&mut b, data);
    frame(b)
}

// ---------------------------------------------------------------------------------------------
// Game to sidecar
// ---------------------------------------------------------------------------------------------

/// A message the game sent.
#[derive(Debug, Clone)]
pub enum GameMessage {
    SelfState { pose: Pose, graphics_id: u8 },
    BeginLogin,
    CancelLogin,
    ChatSend { kind: u8, target: String, text: String },
    Logout,
    RequestBattle { target: PlayerId },
    RespondToBattle { from: PlayerId, accepted: bool },
    /// One slice of the save. `total` is the whole image, so the receiver knows when it has all
    /// of it without a separate end marker.
    SaveChunk { offset: u32, total: u32, bytes: Vec<u8> },
    /// One block of link-battle traffic, bound for whoever this player is battling.
    LinkBlock { bytes: Vec<u8> },
    /// The battle this player was in has finished.
    BattleEnded,
    /// A game process connected to the sidecar. Made locally rather than decoded from a frame:
    /// the game has only just arrived and has said nothing yet.
    Attached,
}

/// A `GameMessage` as a value of the specification.
pub enum GameMessageView {
    SelfState { pose: Pose, graphics_id: u8 },
    BeginLogin,
    CancelLogin,
    ChatSend { kind: u8, target: Seq<char>, text: Seq<char> },
    Logout,
    RequestBattle { target: PlayerId },
    RespondToBattle { from: PlayerId, accepted: bool },
    SaveChunk { offset: u32, total: u32, bytes: Seq<u8> },
    LinkBlock { bytes: Seq<u8> },
    BattleEnded,
    Attached,
}

impl View for GameMessage {
    type V = GameMessageView;

    open spec fn view(&self) -> GameMessageView {
        match *self {
            GameMessage::SelfState { pose, graphics_id } => GameMessageView::SelfState {
                pose,
                graphics_id,
            },
            GameMessage::BeginLogin => GameMessageView::BeginLogin,
            GameMessage::CancelLogin => GameMessageView::CancelLogin,
            GameMessage::ChatSend { kind, target, text } => GameMessageView::ChatSend {
                kind,
                target: target@,
                text: text@,
            },
            GameMessage::Logout => GameMessageView::Logout,
            GameMessage::RequestBattle { target } => GameMessageView::RequestBattle { target },
            GameMessage::RespondToBattle { from, accepted } => GameMessageView::RespondToBattle {
                from,
                accepted,
            },
            GameMessage::SaveChunk { offset, total, bytes } => GameMessageView::SaveChunk {
                offset,
                total,
                bytes: bytes@,
            },
            GameMessage::LinkBlock { bytes } => GameMessageView::LinkBlock { bytes: bytes@ },
            GameMessage::BattleEnded => GameMessageView::BattleEnded,
            GameMessage::Attached => GameMessageView::Attached,
        }
    }
}

/// What a chunk of the save says, behind its type byte.
pub open spec fn decoded_save_chunk(rest: Seq<u8>) -> Result<GameMessageView, IpcError> {
    let offset = bytes::le32(rest, 0);
    let total = bytes::le32(rest, 4);
    let len = bytes::le16(rest, 8);
    if rest.len() < 10 {
        Err(IpcError::ShortSaveChunk(rest.len() as usize))
    } else if rest.len() < 10 + len {
        Err(IpcError::SaveChunkClaims { len, carries: (rest.len() - 10) as usize })
    } else if offset + len > total {
        Err(IpcError::SaveChunkExceeds { offset, len, total })
    } else {
        Ok(GameMessageView::SaveChunk { offset, total, bytes: rest.subrange(10, 10 + len) })
    }
}

/// What a message of this type says, behind its type byte.
pub open spec fn decoded_as(kind: u8, rest: Seq<u8>) -> Result<GameMessageView, IpcError> {
    if kind == MSG_BATTLE_ENDED {
        Ok(GameMessageView::BattleEnded)
    } else if kind == MSG_LINK_BLOCK_SEND {
        if rest.len() < 2 {
            Err(IpcError::ShortLinkBlock)
        } else if rest.len() < 2 + bytes::le16(rest, 0) {
            Err(IpcError::TruncatedLinkBlock)
        } else {
            Ok(GameMessageView::LinkBlock { bytes: rest.subrange(2, 2 + bytes::le16(rest, 0)) })
        }
    } else if kind == MSG_SELF_STATE {
        if rest.len() < 10 {
            Err(IpcError::ShortSelfState(rest.len() as usize))
        } else {
            Ok(
                GameMessageView::SelfState {
                    pose: Pose {
                        map: MapId { group: rest[0], num: rest[1] },
                        x: bytes::le16(rest, 2) as i16,
                        y: bytes::le16(rest, 4) as i16,
                        facing: rest[6],
                        elevation: rest[9],
                        moving: rest[7] != 0,
                    },
                    graphics_id: rest[8],
                },
            )
        }
    } else if kind == MSG_BATTLE_REQUEST {
        if rest.len() < 4 {
            Err(IpcError::ShortBattleRequest(rest.len() as usize))
        } else {
            Ok(GameMessageView::RequestBattle { target: bytes::le32(rest, 0) })
        }
    } else if kind == MSG_BATTLE_RESPOND {
        if rest.len() < 5 {
            Err(IpcError::ShortBattleRespond(rest.len() as usize))
        } else {
            Ok(
                GameMessageView::RespondToBattle {
                    from: bytes::le32(rest, 0),
                    accepted: rest[4] != 0,
                },
            )
        }
    } else if kind == MSG_SAVE_CHUNK {
        decoded_save_chunk(rest)
    } else if kind == MSG_BEGIN_LOGIN {
        Ok(GameMessageView::BeginLogin)
    } else if kind == MSG_CANCEL_LOGIN {
        Ok(GameMessageView::CancelLogin)
    } else if kind == MSG_LOGOUT {
        Ok(GameMessageView::Logout)
    } else if kind == MSG_CHAT_SEND {
        if rest.len() < 225 {
            Err(IpcError::ShortChatSend(rest.len() as usize))
        } else {
            Ok(
                GameMessageView::ChatSend {
                    kind: rest[0],
                    target: lossy_text(until_nul(rest.subrange(1, 25))),
                    text: lossy_text(until_nul(rest.subrange(25, 225))),
                },
            )
        }
    } else {
        Err(IpcError::UnknownType(kind))
    }
}

/// What the body of a frame says.
pub open spec fn decoded(body: Seq<u8>) -> Result<GameMessageView, IpcError> {
    if body.len() == 0 {
        Err(IpcError::Empty)
    } else {
        decoded_as(body[0], body.drop_first())
    }
}

/// The result of a decode, its message taken by its view.
pub open spec fn decode_view(r: Result<GameMessage, IpcError>) -> Result<
    GameMessageView,
    IpcError,
> {
    match r {
        Ok(m) => Ok(m@),
        Err(e) => Err(e),
    }
}

fn decode_save_chunk(rest: &[u8]) -> (r: Result<GameMessage, IpcError>)
    ensures
        decode_view(r) == decoded_save_chunk(rest@),
{
    assert(rest.len() == rest@.len());
    if rest.len() < 10 {
        return Err(IpcError::ShortSaveChunk(rest.len()));
    }
    let offset: u32 = bytes::get32(rest, 0);
    let total: u32 = bytes::get32(rest, 4);
    let len: u16 = bytes::get16(rest, 8);
    if rest.len() < 10 + len as usize {
        return Err(IpcError::SaveChunkClaims { len, carries: rest.len() - 10 });
    }
    // A chunk that runs past the end it declares is malformed, and trusting it would size an
    // allocation from the wire.
    if offset as u64 + len as u64 > total as u64 {
        return Err(IpcError::SaveChunkExceeds { offset, len, total });
    }
    Ok(
        GameMessage::SaveChunk { offset, total, bytes: bytes::copy_range(rest, 10, len as usize) },
    )
}

/// The text of a field was decoded, where the field holds UTF-8 up to its first NUL.
pub open spec fn read_from(text: Seq<char>, field: Seq<u8>) -> bool {
    utf8::valid_utf8(until_nul(field)) ==> text == utf8::decode_utf8(until_nul(field))
}

/// Decodes the body of a frame that the game sent, type byte first.
pub fn decode_game_message(body: &[u8]) -> (r: Result<GameMessage, IpcError>)
    ensures
        decode_view(r) == decoded(body@),
        r matches Ok(GameMessage::ChatSend { target, text, .. }) ==> {
            &&& read_from(target@, body@.drop_first().subrange(1, 25))
            &&& read_from(text@, body@.drop_first().subrange(25, 225))
        },
{
    if body.len() == 0 {
        return Err(IpcError::Empty);
    }
    let kind: u8 = body[0];
    let rest: &[u8] = vstd::slice::slice_subrange(body, 1, body.len());
    assert(rest@ =~= body@.drop_first());
    assert(rest.len() == rest@.len());
    match kind {
        MSG_BATTLE_ENDED => Ok(GameMessage::BattleEnded),
        MSG_LINK_BLOCK_SEND => {
            if rest.len() < 2 {
                return Err(IpcError::ShortLinkBlock);
            }
            let len: usize = bytes::get16(rest, 0) as usize;
            if rest.len() < 2 + len {
                return Err(IpcError::TruncatedLinkBlock);
            }
            Ok(GameMessage::LinkBlock { bytes: bytes::copy_range(rest, 2, len) })
        },
        MSG_SELF_STATE => {
            if rest.len() < 10 {
                return Err(IpcError::ShortSelfState(rest.len()));
            }
            Ok(
                GameMessage::SelfState {
                    pose: Pose {
                        map: MapId::new(rest[0], rest[1]),
                        x: bytes::get16(rest, 2) as i16,
                        y: bytes::get16(rest, 4) as i16,
                        facing: rest[6],
                        elevation: rest[9],
                        moving: rest[7] != 0,
                    },
                    graphics_id: rest[8],
                },
            )
        },
        MSG_BATTLE_REQUEST => {
            if rest.len() < 4 {
                return Err(IpcError::ShortBattleRequest(rest.len()));
            }
            Ok(GameMessage::RequestBattle { target: bytes::get32(rest, 0) })
        },
        MSG_BATTLE_RESPOND => {
            if rest.len() < 5 {
                return Err(IpcError::ShortBattleRespond(rest.len()));
            }
            Ok(
                GameMessage::RespondToBattle {
                    from: bytes::get32(rest, 0),
                    accepted: rest[4] != 0,
                },
            )
        },
        MSG_SAVE_CHUNK => decode_save_chunk(rest),
        MSG_BEGIN_LOGIN => Ok(GameMessage::BeginLogin),
        MSG_CANCEL_LOGIN => Ok(GameMessage::CancelLogin),
        MSG_LOGOUT => Ok(GameMessage::Logout),
        MSG_CHAT_SEND => {
            if rest.len() < 1 + SENDER_LEN + TEXT_LEN {
                return Err(IpcError::ShortChatSend(rest.len()));
            }
            Ok(
                GameMessage::ChatSend {
                    kind: rest[0],
                    target: take_str(vstd::slice::slice_subrange(rest, 1, 1 + SENDER_LEN)),
                    text: take_str(
                        vstd::slice::slice_subrange(
                            rest,
                            1 + SENDER_LEN,
                            1 + SENDER_LEN + TEXT_LEN,
                        ),
                    ),
                },
            )
        },
        _ => Err(IpcError::UnknownType(kind)),
    }
}

// ---------------------------------------------------------------------------------------------
// Laws
// ---------------------------------------------------------------------------------------------

/// A frame is taken off a stream as the body it was made of, and what follows it stays.
pub proof fn law_frames_round_trip(body: Seq<u8>, rest: Seq<u8>)
    requires
        0 < body.len() <= MAX_FRAME,
    ensures
        ({
            let stream = framed(body) + rest;
            let len = body.len() as int;
            &&& front_frame(stream) == Ok::<Option<int>, IpcError>(Some(len))
            &&& stream.subrange(4, 4 + len) == body
            &&& stream.subrange(4 + len, stream.len() as int) == rest
        }),
{
    let stream = framed(body) + rest;
    let len = body.len() as int;
    bytes::lemma_bytes32(bytes::bytes32(len as u32), 0, len as u32);
    assert forall|i: int| 0 <= i < 4 implies #[trigger] stream[0 + i] == bytes::bytes32(
        len as u32,
    )[0 + i] by {}
    bytes::lemma_le_agree(stream, 0, bytes::bytes32(len as u32), 0, 4);
    assert(stream.subrange(4, 4 + len) =~= body);
    assert(stream.subrange(4 + len, stream.len() as int) =~= rest);
}

/// Nothing is taken off a stream that holds only part of a frame.
pub proof fn law_partial_frames_wait(body: Seq<u8>, n: int)
    requires
        0 < body.len() <= MAX_FRAME,
        0 <= n < framed(body).len(),
    ensures
        front_frame(framed(body).subrange(0, n)) == Ok::<Option<int>, IpcError>(None),
{
    let part = framed(body).subrange(0, n);
    let len = body.len() as int;
    if n >= 4 {
        bytes::lemma_bytes32(bytes::bytes32(len as u32), 0, len as u32);
        assert forall|i: int| 0 <= i < 4 implies #[trigger] part[0 + i] == bytes::bytes32(
            len as u32,
        )[0 + i] by {}
        bytes::lemma_le_agree(part, 0, bytes::bytes32(len as u32), 0, 4);
    }
}

/// Where no byte is NUL, reading up to the first NUL reads all of them.
proof fn lemma_until_nul(b: Seq<u8>, pad: int)
    requires
        forall|i: int| 0 <= i < b.len() ==> b[i] != 0,
        pad >= 0,
    ensures
        until_nul(b + zeros(pad)) == b,
    decreases b.len(),
{
    let all = b + zeros(pad);
    if b.len() == 0 {
        assert(until_nul(all) =~= b);
    } else {
        assert(all.drop_first() =~= b.drop_first() + zeros(pad));
        lemma_until_nul(b.drop_first(), pad);
        assert(until_nul(all) =~= b);
    }
}

/// The bytes of a multi-byte character all have their top bit set.
proof fn lemma_scalar_bytes(v: u32)
    requires
        v != 0,
        utf8::is_scalar(v),
    ensures
        forall|i: int|
            0 <= i < utf8::encode_scalar(v).len() ==> #[trigger] utf8::encode_scalar(v)[i] != 0,
{
    assert(v < 0x80 && v != 0 ==> (v & 0x7F) as u8 != 0) by (bit_vector);
    assert(forall|x: u32| (0x80u8 | #[trigger] ((x & 0x3F) as u8)) != 0) by (bit_vector);
    assert(0xC0u8 | ((v >> 6) & 0x1F) as u8 != 0) by (bit_vector);
    assert(0xE0u8 | ((v >> 12) & 0x0F) as u8 != 0) by (bit_vector);
    assert(0xF0u8 | ((v >> 18) & 0x07) as u8 != 0) by (bit_vector);
}

/// A text without NUL characters has no NUL bytes.
proof fn lemma_no_nul(s: Seq<char>)
    requires
        forall|i: int| 0 <= i < s.len() ==> s[i] as u32 != 0,
    ensures
        forall|i: int|
            0 <= i < utf8::encode_utf8(s).len() ==> #[trigger] utf8::encode_utf8(s)[i] != 0,
    decreases s.len(),
{
    if s.len() > 0 {
        lemma_no_nul(s.drop_first());
        utf8::char_is_scalar(s[0]);
        lemma_scalar_bytes(s[0] as u32);
        let a = utf8::encode_scalar(s[0] as u32);
        let b = utf8::encode_utf8(s.drop_first());
        let all = utf8::encode_utf8(s);
        assert(all == a + b);
        assert forall|i: int| 0 <= i < all.len() implies #[trigger] all[i] != 0 by {
            if i < a.len() {
                assert(all[i] == a[i]);
            } else {
                assert(all[i] == b[i - a.len()]);
            }
        }
    }
}

/// A text without NULs is read out of its field as the longest prefix that fits, and as itself
/// where all of it fits.
pub proof fn law_text_fields_round_trip(s: Seq<char>, width: int)
    requires
        width > 0,
        forall|i: int| 0 <= i < s.len() ==> s[i] as u32 != 0,
    ensures
        ({
            let b = until_nul(text_field(s, width));
            &&& utf8::valid_utf8(b)
            &&& utf8::decode_utf8(b).is_prefix_of(s)
            &&& utf8::encode_utf8(s).len() < width ==> utf8::decode_utf8(b) == s
        }),
{
    let all = utf8::encode_utf8(s);
    lemma_text_field(s, width);
    lemma_no_nul(s);
    let n = fitting(all, width);
    let head = all.subrange(0, n);
    let tail = all.subrange(n, all.len() as int);
    lemma_until_nul(head, width - n);
    utf8::encode_utf8_valid_utf8(s);
    utf8::encode_utf8_decode_utf8(s);
    utf8::valid_utf8_split(all, n);
    utf8::decode_utf8_split(all, n);
    assert(s =~= utf8::decode_utf8(head) + utf8::decode_utf8(tail));
    assert(utf8::decode_utf8(head).is_prefix_of(s));
    if all.len() < width {
        assert(head =~= all);
    }
}

} // verus!
