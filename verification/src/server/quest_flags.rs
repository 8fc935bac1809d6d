//! Story-progression validation over the save's flag bitfield.
//!
//! Badges are enforced: losing one is never legitimate. Other story flags that the game never
//! clears are advisory: the set is derived, so clearing one is logged rather than refused.
//!
//! The flag bitfield is flag id `f` -> bit `f % 8` of byte `f / 8`.

use super::save_parse::state::SaveState;
use crate::text;
use vstd::prelude::*;

verus! {

/// The flags of the eight gym badges.
pub const BADGE_FLAGS: [u16; 8] = [2151, 2152, 2153, 2154, 2155, 2156, 2157, 2158];

/// Whether a flag is set. A flag past the end of the bitfield is not.
pub open spec fn has_flag(flags: Seq<u8>, id: u16) -> bool {
    id / 8 < flags.len() && (flags[(id / 8) as int] >> ((id % 8) as u8)) & 1 == 1
}

/// A flag that was set and is not any more.
pub open spec fn lost_flag(before: Seq<u8>, after: Seq<u8>, id: u16) -> bool {
    has_flag(before, id) && !has_flag(after, id)
}

/// The first of these flags, from `i` on, that was lost.
pub open spec fn first_lost(before: Seq<u8>, after: Seq<u8>, ids: Seq<u16>, i: int) -> Option<u16>
    decreases ids.len() - i,
{
    if i >= ids.len() {
        None
    } else if lost_flag(before, after, ids[i]) {
        Some(ids[i])
    } else {
        first_lost(before, after, ids, i + 1)
    }
}

/// Whether a flag is set.
pub fn flag_set(flags: &[u8], id: u16) -> (r: bool)
    ensures
        r == has_flag(flags@, id),
{
    let byte: usize = (id / 8) as usize;
    let bit: u8 = (id % 8) as u8;
    if byte < flags.len() {
        (flags[byte] >> bit) & 1 == 1
    } else {
        false
    }
}

fn find_lost(before: &[u8], after: &[u8], ids: &[u16]) -> (r: Option<u16>)
    ensures
        r == first_lost(before@, after@, ids@, 0),
{
    let mut i: usize = 0;
    while i < ids.len()
        invariant
            i <= ids@.len(),
            first_lost(before@, after@, ids@, 0) == first_lost(before@, after@, ids@, i as int),
        decreases ids@.len() - i,
    {
        let id: u16 = ids[i];
        if flag_set(before, id) && !flag_set(after, id) {
            return Some(id);
        }
        i = i + 1;
    }
    None
}

/// A badge held before but cleared now. Enforced: no honest game takes a badge back.
pub fn badge_regressed(before: &SaveState, after: &SaveState) -> (r: Option<String>)
    ensures
        match (r, first_lost(before@.flags, after@.flags, BADGE_FLAGS@, 0)) {
            (Some(message), Some(id)) => message@ == "a badge already earned was cleared (flag "@
                + text::dec(id as nat) + ")"@,
            (None, None) => true,
            _ => false,
        },
{
    match find_lost(&before.flags, &after.flags, &BADGE_FLAGS) {
        Some(id) => {
            let mut s = "a badge already earned was cleared (flag ".to_owned();
            text::push_dec(&mut s, id as u64);
            text::push_text(&mut s, ")");
            Some(s)
        },
        None => None,
    }
}

/// The first of these story flags that was cleared. Advisory: returned for logging, not for
/// refusal.
pub fn monotonic_cleared(before: &SaveState, after: &SaveState, monotonic: &[u16]) -> (r: Option<
    u16,
>)
    ensures
        r == first_lost(before@.flags, after@.flags, monotonic@, 0),
{
    find_lost(&before.flags, &after.flags, monotonic)
}

/// How many of the first `n` badges are held.
pub open spec fn badges_held(flags: Seq<u8>, n: nat) -> nat
    decreases n,
{
    if n == 0 {
        0
    } else {
        badges_held(flags, (n - 1) as nat) + if has_flag(flags, BADGE_FLAGS@[n - 1]) {
            1nat
        } else {
            0nat
        }
    }
}

/// How many gym badges a save holds.
pub fn badge_count(state: &SaveState) -> (r: u8)
    ensures
        r == badges_held(state@.flags, 8),
        r <= 8,
{
    let mut n: u8 = 0;
    let mut i: usize = 0;
    while i < 8
        invariant
            i <= 8,
            n <= i,
            n == badges_held(state.flags@, i as nat),
        decreases 8 - i,
    {
        if flag_set(&state.flags, BADGE_FLAGS[i]) {
            n = n + 1;
        }
        i = i + 1;
    }
    n
}

/// The search finds the first lost flag of the list, and finds none only where none was lost.
pub proof fn law_lost_flags_are_found(before: Seq<u8>, after: Seq<u8>, ids: Seq<u16>, i: int)
    requires
        0 <= i,
    ensures
        match first_lost(before, after, ids, i) {
            Some(id) => exists|k: int|
                {
                    &&& i <= k < ids.len()
                    &&& #[trigger] ids[k] == id
                    &&& lost_flag(before, after, id)
                },
            None => forall|k: int|
                i <= k < ids.len() ==> !lost_flag(before, after, #[trigger] ids[k]),
        },
    decreases ids.len() - i,
{
    if i < ids.len() {
        if lost_flag(before, after, ids[i]) {
            assert(ids[i] == ids[i]);
        } else {
            law_lost_flags_are_found(before, after, ids, i + 1);
        }
    }
}

/// Earning flags, or leaving them, is never a regression: where every flag that was set still is,
/// nothing is lost.
pub proof fn law_gaining_flags_is_no_loss(before: Seq<u8>, after: Seq<u8>, ids: Seq<u16>)
    requires
        forall|id: u16| has_flag(before, id) ==> #[trigger] has_flag(after, id),
    ensures
        first_lost(before, after, ids, 0) is None,
{
    law_lost_flags_are_found(before, after, ids, 0);
}

} // verus!
