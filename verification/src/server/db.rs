//! What the database holds of a character, and the rows that a save is projected into.

use super::save_parse::mon::PartyMon;
use crate::bytes;
use crate::proto::quic::CharacterProfile;
use crate::text;
use sha2::{Digest, Sha256};
use vstd::prelude::*;
use vstd::utf8;

verus! {

/// The SHA-256 digest of these bytes.
pub uninterp spec fn sha256(b: Seq<u8>) -> Seq<u8>;

/// `sha2::Sha256::digest`: the SHA-256 digest of the bytes, which is 32 bytes long and a function
/// of them alone, called `sha256`.
#[verifier::external_body]
fn sha256_digest(b: &[u8]) -> (r: Vec<u8>)
    ensures
        r@ == sha256(b@),
        r@.len() == 32,
{
    Sha256::digest(b).to_vec()
}

/// A lower-case hexadecimal digit.
pub open spec fn hex_digit(d: int) -> char {
    if d < 10 {
        (0x30 + d) as char
    } else {
        (0x61 + d - 10) as char
    }
}

/// Bytes in hexadecimal, two digits each.
pub open spec fn hex(b: Seq<u8>) -> Seq<char>
    decreases b.len(),
{
    if b.len() == 0 {
        Seq::empty()
    } else {
        hex(b.drop_last()).push(hex_digit(b.last() as int / 16)).push(
            hex_digit(b.last() as int % 16),
        )
    }
}

fn hex_of(d: u8) -> (r: char)
    requires
        d < 16,
    ensures
        r == hex_digit(d as int),
{
    if d < 10 {
        (0x30u8 + d) as char
    } else {
        (0x61u8 + (d - 10)) as char
    }
}

/// Bytes in hexadecimal, two digits each.
pub fn to_hex(b: &[u8]) -> (r: String)
    ensures
        r@ == hex(b@),
{
    let mut s = String::new();
    let mut i: usize = 0;
    while i < b.len()
        invariant
            i <= b@.len(),
            s@ == hex(b@.subrange(0, i as int)),
        decreases b@.len() - i,
    {
        assert(b@.subrange(0, i + 1).drop_last() =~= b@.subrange(0, i as int));
        s.push(hex_of(b[i] / 16));
        s.push(hex_of(b[i] % 16));
        i = i + 1;
    }
    assert(b@.subrange(0, i as int) =~= b@);
    s
}

/// The at-rest form of a session token: its SHA-256, hex-encoded. A leaked row is useless: the
/// client holds and sends the real token, and the server matches on the hash of what it receives.
pub fn hash_token(token: &str) -> (r: String)
    ensures
        r@ == hex(sha256(utf8::encode_utf8(token@))),
{
    to_hex(&sha256_digest(token.as_bytes()))
}

/// A hexadecimal text is twice as long as the bytes it stands for.
pub proof fn law_hex_is_twice_as_long(b: Seq<u8>)
    ensures
        hex(b).len() == 2 * b.len(),
    decreases b.len(),
{
    if b.len() > 0 {
        law_hex_is_twice_as_long(b.drop_last());
    }
}

/// A character, as the database has it.
#[derive(Debug, Clone)]
pub struct Character {
    pub id: i64,
    pub account_id: i64,
    /// Which world this character belongs to: "normal" or "deadman". An account holds at most one
    /// of each.
    pub mode: String,
    pub name: String,
    pub graphics_id: u8,
    pub map_group: u8,
    pub map_num: u8,
    pub x: i16,
    pub y: i16,
    pub facing: u8,
    pub elevation: u8,
    pub play_time_s: i64,
    pub money: i32,
    pub badges: u8,
    pub pokedex_caught: u16,
    pub pokedex_seen: u16,
}

/// A count of the database as the client is shown it: nothing below zero, and the low half of
/// what does not fit.
pub open spec fn shown_count(n: int) -> u32 {
    if n < 0 {
        0
    } else {
        (n % 0x1_0000_0000) as u32
    }
}

impl Character {
    /// The save summary the client shows on its sign-in screen.
    pub fn profile(&self) -> (r: CharacterProfile)
        ensures
            r.name@ == self.name@,
            r.graphics_id == self.graphics_id,
            r.play_time_seconds == shown_count(self.play_time_s as int),
            r.badges == self.badges,
            r.pokedex_caught == self.pokedex_caught,
            r.pokedex_seen == self.pokedex_seen,
            r.money == shown_count(self.money as int),
            r.map_group == self.map_group,
            r.map_num == self.map_num,
            r.x == self.x,
            r.y == self.y,
    {
        let play_time_seconds: u32 = if self.play_time_s < 0 {
            0
        } else {
            (self.play_time_s as u64 % 0x1_0000_0000) as u32
        };
        let money: u32 = if self.money < 0 {
            0
        } else {
            self.money as u32
        };
        CharacterProfile {
            name: self.name.clone(),
            graphics_id: self.graphics_id,
            play_time_seconds,
            badges: self.badges,
            pokedex_caught: self.pokedex_caught,
            pokedex_seen: self.pokedex_seen,
            money,
            map_group: self.map_group,
            map_num: self.map_num,
            x: self.x,
            y: self.y,
        }
    }
}

/// How many names are tried for a new character.
pub const NAME_ATTEMPTS: u32 = 1000;

/// The name tried at an attempt: the player's own, then with a number appended.
pub open spec fn attempt_name(name: Seq<char>, attempt: nat) -> Seq<char> {
    if attempt == 0 {
        name
    } else {
        name + text::dec(attempt)
    }
}

/// The name tried at an attempt. Discord names are not unique and character names have to be, so a
/// new player whose name is taken gets a number appended.
pub fn candidate_name(name: &str, attempt: u32) -> (r: String)
    ensures
        r@ == attempt_name(name@, attempt as nat),
{
    let mut s = name.to_owned();
    if attempt != 0 {
        text::push_dec(&mut s, attempt as u64);
    }
    s
}

proof fn lemma_dec_len(a: nat, b: nat)
    requires
        text::dec(a) == text::dec(b),
    ensures
        a == b,
    decreases a,
{
    lemma_dec_nonempty(a);
    lemma_dec_nonempty(b);
    let x = text::dec(a);
    if a < 10 && b < 10 {
        assert(x[0] == text::digit(a as int));
        assert(x[0] == text::digit(b as int));
    } else if a < 10 {
        lemma_dec_nonempty(b / 10);
        assert(text::dec(b).len() >= 2);
    } else if b < 10 {
        lemma_dec_nonempty(a / 10);
        assert(text::dec(a).len() >= 2);
    } else {
        assert(x.drop_last() =~= text::dec(a / 10));
        assert(x.drop_last() =~= text::dec(b / 10));
        assert(x.last() == text::digit((a % 10) as int));
        assert(x.last() == text::digit((b % 10) as int));
        lemma_dec_len(a / 10, b / 10);
    }
}

proof fn lemma_dec_nonempty(n: nat)
    ensures
        text::dec(n).len() >= 1,
    decreases n,
{
    if n >= 10 {
        lemma_dec_nonempty(n / 10);
    }
}

/// Every attempt tries another name.
pub proof fn law_attempts_differ(name: Seq<char>, a: nat, b: nat)
    requires
        a != b,
    ensures
        attempt_name(name, a) != attempt_name(name, b),
{
    let x = attempt_name(name, a);
    let y = attempt_name(name, b);
    lemma_dec_nonempty(a);
    lemma_dec_nonempty(b);
    if x == y && a != 0 && b != 0 {
        assert(text::dec(a) =~= x.subrange(name.len() as int, x.len() as int));
        assert(text::dec(b) =~= y.subrange(name.len() as int, y.len() as int));
        lemma_dec_len(a, b);
    }
}

/// What is said when every attempt was taken.
pub fn no_name_message(name: &str) -> (r: String)
    ensures
        r@ == "no free character name for "@ + name@ + " after 1000 attempts"@,
{
    let mut s = "no free character name for ".to_owned();
    text::push_text(&mut s, name);
    text::push_text(&mut s, " after 1000 attempts");
    s
}

/// What to do next about a character's name.
pub enum NameStep {
    /// Make the character under this name.
    Try { attempt: u32, name: String },
    /// The account has a character: returning players keep whatever name they were given.
    UseExisting,
    /// Every attempt was taken.
    GiveUp { message: String },
}

/// Decides what follows once the account was asked for a character: at first, and again after each
/// name that was taken, since another connection may have made the character meanwhile. `tried` is
/// the attempt that was just taken.
pub fn name_step(name: &str, tried: Option<u32>, exists: bool) -> (r: NameStep)
    ensures
        ({
            let next = match tried {
                Some(attempt) => attempt + 1,
                None => 0,
            };
            if exists {
                r is UseExisting
            } else if next < NAME_ATTEMPTS {
                &&& r matches NameStep::Try { attempt, name: candidate }
                &&& attempt == next
                &&& candidate@ == attempt_name(name@, next as nat)
            } else {
                &&& r matches NameStep::GiveUp { message }
                &&& message@ == "no free character name for "@ + name@ + " after 1000 attempts"@
            }
        }),
{
    if exists {
        return NameStep::UseExisting;
    }
    let attempt: u32 = match tried {
        None => 0,
        Some(attempt) => {
            if attempt >= NAME_ATTEMPTS - 1 {
                return NameStep::GiveUp { message: no_name_message(name) };
            }
            attempt + 1
        },
    };
    NameStep::Try { attempt, name: candidate_name(name, attempt) }
}

// ---------------------------------------------------------------------------------------------
// Projections of a save
// ---------------------------------------------------------------------------------------------

/// Which places of the party get a row. A record whose decrypted bytes disagree with its own
/// checksum does not: invented numbers would be worse than no row at all.
pub open spec fn stored_places(party: Seq<PartyMon>, n: nat) -> Seq<usize>
    decreases n,
{
    if n == 0 {
        Seq::empty()
    } else {
        let rest = stored_places(party, (n - 1) as nat);
        if party[n - 1].checksum_ok {
            rest.push((n - 1) as usize)
        } else {
            rest
        }
    }
}

/// Which places of the party get a row.
pub fn storable(party: &Vec<PartyMon>) -> (r: Vec<usize>)
    ensures
        r@ == stored_places(party@, party@.len()),
{
    let mut out: Vec<usize> = Vec::new();
    let mut n: usize = 0;
    while n < party.len()
        invariant
            n <= party@.len(),
            out@ == stored_places(party@, n as nat),
        decreases party@.len() - n,
    {
        if party[n].checksum_ok {
            out.push(n);
        }
        n = n + 1;
    }
    out
}

/// The story's variables as bytes, each little-endian.
pub open spec fn vars_bytes(vars: Seq<u16>) -> Seq<u8>
    decreases vars.len(),
{
    if vars.len() == 0 {
        Seq::empty()
    } else {
        vars_bytes(vars.drop_last()) + bytes::bytes16(vars.last())
    }
}

/// The story's variables as bytes, each little-endian.
pub fn pack_vars(vars: &[u16]) -> (r: Vec<u8>)
    ensures
        r@ == vars_bytes(vars@),
{
    let mut out: Vec<u8> = Vec::new();
    let mut i: usize = 0;
    while i < vars.len()
        invariant
            i <= vars@.len(),
            out@ == vars_bytes(vars@.subrange(0, i as int)),
        decreases vars@.len() - i,
    {
        assert(vars@.subrange(0, i + 1).drop_last() =~= vars@.subrange(0, i as int));
        bytes::push16(&mut out, vars[i]);
        i = i + 1;
    }
    assert(vars@.subrange(0, i as int) =~= vars@);
    out
}

} // verus!
