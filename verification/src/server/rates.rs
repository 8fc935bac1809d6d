//! Gameplay rates: the grammar of their file, which set a world uses, and what a save gained.
//!
//! A rate is a multiplier on what the original game does. The numbers themselves are single
//! precision and are read, and compared with the gains, by whoever holds them.

use super::save_parse::judge;
use super::save_parse::mon::{MonView, PartyMon};
use super::save_parse::state::{SaveState, SaveView};
use crate::text;
use vstd::prelude::*;

verus! {

// ---------------------------------------------------------------------------------------------
// The file
// ---------------------------------------------------------------------------------------------

/// What a rate is set for.
#[derive(Debug, Clone, Copy, PartialEq, Eq, Structural)]
pub enum RateKey {
    /// Experience from battles.
    Experience,
    /// How often wild encounters happen at all.
    Encounter,
    /// Prize money, sales, and every other source of pokedollars.
    Money,
    /// Items found, given, and dropped.
    Items,
    /// Catch probability.
    Catch,
    /// What shops charge.
    ShopPrice,
    /// The ceilings on how fast money and experience may arrive, and how much of them may build
    /// up.
    CeilingMoneyPerSecond,
    CeilingExperiencePerSecond,
    CeilingBurstSeconds,
    /// Encounters of one species, on top of `Encounter`.
    Species(u16),
}

/// One line of the file.
pub enum RateLine {
    /// Nothing, or a comment alone.
    Blank,
    /// Something without an equals sign.
    NotPair,
    Pair { key: String, value: String },
}

/// A `RateLine` as a value of the specification.
pub enum RateLineView {
    Blank,
    NotPair,
    Pair { key: Seq<char>, value: Seq<char> },
}

impl View for RateLine {
    type V = RateLineView;

    open spec fn view(&self) -> RateLineView {
        match *self {
            RateLine::Blank => RateLineView::Blank,
            RateLine::NotPair => RateLineView::NotPair,
            RateLine::Pair { key, value } => RateLineView::Pair { key: key@, value: value@ },
        }
    }
}

/// What stands before a comment.
pub open spec fn before_comment(line: Seq<char>) -> Seq<char> {
    match text::index_from(line, '#', 0) {
        Some(k) => line.subrange(0, k),
        None => line,
    }
}

/// What a line says: `key = value`, with `#` starting a comment.
pub open spec fn rate_line_of(line: Seq<char>) -> RateLineView {
    let said = text::trim(before_comment(line));
    if said.len() == 0 {
        RateLineView::Blank
    } else {
        match text::index_from(said, '=', 0) {
            Some(k) => RateLineView::Pair {
                key: text::trim(said.subrange(0, k)),
                value: said.subrange(k + 1, said.len() as int),
            },
            None => RateLineView::NotPair,
        }
    }
}

/// Reads one line of the file.
fn read_line(line: &[char]) -> (r: RateLine)
    ensures
        r@ == rate_line_of(line@),
{
    let said: &[char] = match text::find_char(line, '#') {
        Some(k) => text::trimmed(text::part(line, 0, k)),
        None => text::trimmed(line),
    };
    if said.len() == 0 {
        return RateLine::Blank;
    }
    match text::find_char(said, '=') {
        Some(k) => RateLine::Pair {
            key: text::string_of(text::trimmed(text::part(said, 0, k))),
            value: text::string_of(text::part(said, k + 1, said.len())),
        },
        None => RateLine::NotPair,
    }
}

/// What the lines of the file say, in order.
pub fn read_lines(file: &str) -> (r: Vec<RateLine>)
    ensures
        r@.len() == text::lines_of(file@).len(),
        forall|i: int| 0 <= i < r@.len() ==> (#[trigger] r@[i])@ == rate_line_of(
            text::lines_of(file@)[i],
        ),
{
    let lines: Vec<Vec<char>> = text::lines(&text::chars_of(file));
    let ghost all = text::lines_of(file@);
    let mut out: Vec<RateLine> = Vec::new();
    let mut i: usize = 0;
    while i < lines.len()
        invariant
            text::texts(lines@) == all,
            i <= lines@.len(),
            out@.len() == i,
            forall|k: int| 0 <= k < i ==> (#[trigger] out@[k])@ == rate_line_of(all[k]),
        decreases lines@.len() - i,
    {
        assert(all[i as int] == lines@[i as int]@);
        out.push(read_line(&lines[i]));
        i = i + 1;
    }
    assert(all.len() == lines@.len());
    out
}

/// What a key names; nothing for a key that is not known.
pub open spec fn key_of(key: Seq<char>) -> Option<RateKey> {
    if key == "experience"@ {
        Some(RateKey::Experience)
    } else if key == "encounter"@ {
        Some(RateKey::Encounter)
    } else if key == "money"@ {
        Some(RateKey::Money)
    } else if key == "items"@ {
        Some(RateKey::Items)
    } else if key == "catch"@ {
        Some(RateKey::Catch)
    } else if key == "shop_price"@ {
        Some(RateKey::ShopPrice)
    } else if key == "ceiling_money_per_second"@ {
        Some(RateKey::CeilingMoneyPerSecond)
    } else if key == "ceiling_experience_per_second"@ {
        Some(RateKey::CeilingExperiencePerSecond)
    } else if key == "ceiling_burst_seconds"@ {
        Some(RateKey::CeilingBurstSeconds)
    } else if text::has_at(key, "species."@, 0) {
        match text::unsigned_of(key.subrange(8, key.len() as int), 65535) {
            Some(n) => Some(RateKey::Species(n as u16)),
            None => None,
        }
    } else {
        None
    }
}

/// What a key names. A misspelt key is a typo, and refused rather than ignored.
pub fn rate_key(key: &str) -> (r: Option<RateKey>)
    ensures
        r == key_of(key@),
{
    proof {
        reveal_strlit("species.");
    }
    let cs: Vec<char> = text::chars_of(key);
    if text::equals(&cs, "experience") {
        Some(RateKey::Experience)
    } else if text::equals(&cs, "encounter") {
        Some(RateKey::Encounter)
    } else if text::equals(&cs, "money") {
        Some(RateKey::Money)
    } else if text::equals(&cs, "items") {
        Some(RateKey::Items)
    } else if text::equals(&cs, "catch") {
        Some(RateKey::Catch)
    } else if text::equals(&cs, "shop_price") {
        Some(RateKey::ShopPrice)
    } else if text::equals(&cs, "ceiling_money_per_second") {
        Some(RateKey::CeilingMoneyPerSecond)
    } else if text::equals(&cs, "ceiling_experience_per_second") {
        Some(RateKey::CeilingExperiencePerSecond)
    } else if text::equals(&cs, "ceiling_burst_seconds") {
        Some(RateKey::CeilingBurstSeconds)
    } else if text::starts_with(&cs, "species.") {
        match text::parse_unsigned(text::part(&cs, 8, cs.len()), 65535) {
            Some(n) => Some(RateKey::Species(n as u16)),
            None => None,
        }
    } else {
        None
    }
}

/// What is said of a line without an equals sign; lines are counted from one.
pub fn not_pair_message(number: u64) -> (r: String)
    ensures
        r@ == "line "@ + text::dec(number as nat) + ": expected key = value"@,
{
    let mut s = "line ".to_owned();
    text::push_dec(&mut s, number);
    text::push_text(&mut s, ": expected key = value");
    s
}

/// What is said of a key that is not known.
pub fn unknown_rate_message(number: u64, key: &str) -> (r: String)
    ensures
        r@ == "line "@ + text::dec(number as nat) + ": unknown rate "@ + key@,
{
    let mut s = "line ".to_owned();
    text::push_dec(&mut s, number);
    text::push_text(&mut s, ": unknown rate ");
    text::push_text(&mut s, key);
    s
}

/// What is said of a value that is not a rate.
pub fn bad_rate_message(number: u64, key: &str, why: &str) -> (r: String)
    ensures
        r@ == "line "@ + text::dec(number as nat) + ": "@ + key@ + ": "@ + why@,
{
    let mut s = "line ".to_owned();
    text::push_dec(&mut s, number);
    text::push_text(&mut s, ": ");
    text::push_text(&mut s, key);
    text::push_text(&mut s, ": ");
    text::push_text(&mut s, why);
    s
}

// ---------------------------------------------------------------------------------------------
// Worlds
// ---------------------------------------------------------------------------------------------

/// The rate sets for each world. Deadman runs a deliberately harsher economy than Normal.
pub struct ModeRates<R> {
    pub normal: R,
    pub deadman: R,
}

impl<R> ModeRates<R> {
    /// The rates for a character's mode. An unrecognised mode falls back to the normal set, so a
    /// bad value can never hand out unbounded gains.
    pub fn for_mode(&self, mode: &str) -> (r: &R)
        ensures
            *r == (if mode@ == "deadman"@ {
                self.deadman
            } else {
                self.normal
            }),
    {
        if text::is_text(mode, "deadman") {
            &self.deadman
        } else {
            &self.normal
        }
    }
}

// ---------------------------------------------------------------------------------------------
// Gains
// ---------------------------------------------------------------------------------------------

/// How much money a save gained; spending is not a gain.
pub open spec fn money_gain(before: SaveView, after: SaveView) -> u32 {
    if after.money() > before.money() {
        (after.money() - before.money()) as u32
    } else {
        0
    }
}

/// How much money a save gained; spending is not a gain.
pub fn money_gained(before: &SaveState, after: &SaveState) -> (r: u32)
    ensures
        r == money_gain(before@, after@),
{
    after.money().saturating_sub(before.money())
}

/// How much experience one Pokemon gained; nothing where it is in only one save, where either
/// side could not decode it, or where it gained none.
pub open spec fn mon_gain(old: MonView, after: Seq<MonView>) -> Option<u32> {
    match judge::same_mon(after, old.personality, old.ot_id, 0) {
        Some(new) => if old.checksum_ok && new.checksum_ok && new.experience > old.experience {
            Some((new.experience - old.experience) as u32)
        } else {
            None
        },
        None => None,
    }
}

/// How much experience each of the first `n` Pokemon gained, those omitted that gained none.
pub open spec fn party_gains(before: Seq<MonView>, after: Seq<MonView>, n: nat) -> Seq<u32>
    decreases n,
{
    if n == 0 {
        Seq::empty()
    } else {
        let rest = party_gains(before, after, (n - 1) as nat);
        match mon_gain(before[n - 1], after) {
            Some(g) => rest.push(g),
            None => rest,
        }
    }
}

/// How much experience each Pokemon gained, those omitted that gained none.
pub fn experience_gained(before: &SaveState, after: &SaveState) -> (r: Vec<u32>)
    ensures
        r@ == party_gains(before@.party, after@.party, before@.party.len()),
{
    let mut gains: Vec<u32> = Vec::new();
    let mut i: usize = 0;
    while i < before.party.len()
        invariant
            i <= before.party@.len(),
            gains@ == party_gains(before@.party, after@.party, i as nat),
        decreases before.party@.len() - i,
    {
        let old_mon: &PartyMon = &before.party[i];
        assert(before@.party[i as int] == old_mon@);
        match judge::find_mon(&after.party, old_mon.personality, old_mon.ot_id) {
            Some(at) => {
                let new: &PartyMon = &after.party[at];
                if old_mon.checksum_ok && new.checksum_ok && new.experience > old_mon.experience {
                    gains.push(new.experience - old_mon.experience);
                }
            },
            None => {},
        }
        i = i + 1;
    }
    gains
}

/// A save that stayed as it is has gained nothing.
pub proof fn law_standing_still_gains_no_money(s: SaveView)
    ensures
        money_gain(s, s) == 0,
{
}

} // verus!
