//! Server-authoritative money moves against a character's stored save.
//!
//! Money only ever changes in the server's own copy of the save, so a client can never mint or
//! duplicate it: the server computes the new balance and rewrites the save, and every write goes
//! through `reauthor`.

use super::save_parse::edit;
use super::save_parse::image;
use super::save_parse::judge::MAX_MONEY;
use super::save_parse::state;
use vstd::prelude::*;

verus! {

/// The balance after taking `amount`, or `None` if the character cannot cover it.
pub fn after_deduct(current: u32, amount: u32) -> (r: Option<u32>)
    ensures
        r == (if current >= amount {
            Some((current - amount) as u32)
        } else {
            None
        }),
{
    if current >= amount {
        Some(current - amount)
    } else {
        None
    }
}

/// The balance after receiving `amount`, kept under the game's money cap.
pub open spec fn credited_balance(current: u32, amount: u32) -> u32 {
    if current + amount <= MAX_MONEY {
        (current + amount) as u32
    } else {
        MAX_MONEY
    }
}

/// The balance after receiving `amount`, clamped to the game's money cap (and overflow-safe).
pub fn after_credit(current: u32, amount: u32) -> (r: u32)
    ensures
        r == credited_balance(current, amount),
{
    let total: u32 = current.saturating_add(amount);
    if total <= MAX_MONEY {
        total
    } else {
        MAX_MONEY
    }
}

/// Deposits the whole carried wallet into the bank: the new (carried, bank).
///
/// The bank is a `u64` so repeated deposits accumulate past the in-game money cap without loss.
pub fn deposit_all(carried: u32, bank: u64) -> (r: (u32, u64))
    requires
        bank + carried <= u64::MAX,
    ensures
        r.0 == 0,
        r.1 == bank + carried,
{
    (0, bank + carried as u64)
}

/// The room left in a wallet under the money cap.
pub open spec fn room(carried: u32) -> int {
    if carried <= MAX_MONEY {
        MAX_MONEY - carried
    } else {
        0
    }
}

/// How much a withdrawal moves: as much as the wallet can still hold, and no more than is banked.
pub open spec fn withdrawn(carried: u32, bank: u64) -> int {
    if room(carried) <= bank {
        room(carried)
    } else {
        bank as int
    }
}

/// Withdraws from the bank into the carried wallet, capped at the game's money limit: as much as
/// the wallet can still hold moves out, the rest stays banked. Returns the new (carried, bank).
pub fn withdraw_all(carried: u32, bank: u64) -> (r: (u32, u64))
    ensures
        r.0 == carried + withdrawn(carried, bank),
        r.1 == bank - withdrawn(carried, bank),
{
    let space: u64 = MAX_MONEY.saturating_sub(carried) as u64;
    let moved: u64 = if space <= bank {
        space
    } else {
        bank
    };
    (carried + moved as u32, bank - moved)
}

/// The amount that can actually move from a sender to a receiver.
pub open spec fn movable_amount(from_balance: u32, to_balance: u32, amount: u32) -> int {
    let asked = if amount <= from_balance { amount as int } else { from_balance as int };
    if asked <= room(to_balance) {
        asked
    } else {
        room(to_balance)
    }
}

/// The amount that can actually move from a sender holding `from_balance` to a receiver holding
/// `to_balance`: capped by what the sender has and by the room left under the receiver's money
/// cap, so a transfer never mints money nor lets a sender spend what they lack.
pub fn movable(from_balance: u32, to_balance: u32, amount: u32) -> (r: u32)
    ensures
        r == movable_amount(from_balance, to_balance, amount),
{
    let space: u32 = MAX_MONEY.saturating_sub(to_balance);
    let asked: u32 = if amount <= from_balance {
        amount
    } else {
        from_balance
    };
    if asked <= space {
        asked
    } else {
        space
    }
}

/// A stored save with its money replaced, where it can be read and authored.
pub open spec fn money_replaced(stored: Seq<u8>, amount: u32) -> Option<Seq<u8>> {
    match state::parsed(stored) {
        Some(old) => image::reauthored(
            stored,
            image::SAVEBLOCK1_SECTORS@,
            edit::money_set(old.block1, old.encryption_key, amount),
        ),
        None => None,
    }
}

/// Rebuilds `stored` with `new_money`. `None` if the image cannot be read or authored.
pub fn image_with_money(stored: &[u8], new_money: u32) -> (r: Option<Vec<u8>>)
    ensures
        match r {
            Some(out) => money_replaced(stored@, new_money) == Some(out@),
            None => money_replaced(stored@, new_money) is None,
        },
{
    match state::parse(stored) {
        Some(old_state) => image::reauthor(stored, &edit::with_money(&old_state, new_money)),
        None => None,
    }
}

/// A stored save's money, or `None` if the save cannot be read.
pub fn money(stored: &[u8]) -> (r: Option<u32>)
    ensures
        r == (match state::parsed(stored@) {
            Some(s) => Some(s.money()),
            None => None,
        }),
{
    match state::parse(stored) {
        Some(s) => Some(s.money()),
        None => None,
    }
}

/// What taking a stake out of a stored save leaves: the new image and the remaining balance.
pub open spec fn deducted(stored: Seq<u8>, amount: u32) -> Option<(Seq<u8>, u32)> {
    match state::parsed(stored) {
        Some(s) => if s.money() < amount {
            None
        } else {
            match money_replaced(stored, (s.money() - amount) as u32) {
                Some(out) => Some((out, (s.money() - amount) as u32)),
                None => None,
            }
        },
        None => None,
    }
}

/// What paying into a stored save leaves: the new image and the new balance.
pub open spec fn credited(stored: Seq<u8>, amount: u32) -> Option<(Seq<u8>, u32)> {
    match state::parsed(stored) {
        Some(s) => match money_replaced(stored, credited_balance(s.money(), amount)) {
            Some(out) => Some((out, credited_balance(s.money(), amount))),
            None => None,
        },
        None => None,
    }
}

/// Escrows a stake: takes `amount` out of a stored save if the character can afford it. `None`
/// means they could not cover it, or that the save could not be read or authored; nothing is then
/// to be stored.
pub fn try_deduct(stored: &[u8], amount: u32) -> (r: Option<(Vec<u8>, u32)>)
    ensures
        match r {
            Some((out, left)) => deducted(stored@, amount) == Some((out@, left)),
            None => deducted(stored@, amount) is None,
        },
{
    let current: u32 = match money(stored) {
        Some(current) => current,
        None => {
            return None;
        },
    };
    let left: u32 = match after_deduct(current, amount) {
        Some(left) => left,
        None => {
            return None;
        },
    };
    match image_with_money(stored, left) {
        Some(out) => Some((out, left)),
        None => None,
    }
}

/// Pays out a pot or refunds a stake: gives `amount`, clamped to the money cap.
pub fn credit(stored: &[u8], amount: u32) -> (r: Option<(Vec<u8>, u32)>)
    ensures
        match r {
            Some((out, total)) => credited(stored@, amount) == Some((out@, total)),
            None => credited(stored@, amount) is None,
        },
{
    let current: u32 = match money(stored) {
        Some(current) => current,
        None => {
            return None;
        },
    };
    let total: u32 = after_credit(current, amount);
    match image_with_money(stored, total) {
        Some(out) => Some((out, total)),
        None => None,
    }
}

/// What a transfer leaves: the two new images and the two new balances, the sender's first.
/// Nothing where a save cannot be read or authored, the sender is broke, or the receiver is at the
/// cap.
pub open spec fn transferred(from_stored: Seq<u8>, to_stored: Seq<u8>, amount: u32) -> Option<
    (Seq<u8>, Seq<u8>, u32, u32),
> {
    match (state::parsed(from_stored), state::parsed(to_stored)) {
        (Some(f), Some(t)) => {
            let moved = movable_amount(f.money(), t.money(), amount) as u32;
            if moved == 0 {
                None
            } else {
                match (deducted(from_stored, moved), credited(to_stored, moved)) {
                    (Some((from_image, left)), Some((to_image, total))) => Some(
                        (from_image, to_image, left, total),
                    ),
                    _ => None,
                }
            }
        },
        _ => None,
    }
}

/// How a transfer between two stored saves ends.
pub enum Transfer {
    /// Nothing moves, and nothing is to be stored: a save cannot be read or authored, the sender is
    /// broke, or the receiver is at the cap.
    Nothing,
    /// Both saves are rewritten.
    Moved { from_image: Vec<u8>, to_image: Vec<u8>, from_left: u32, to_total: u32 },
}

/// Moves up to `amount` from one stored save to another. Both images are authored before either is
/// handed out, so a transfer that cannot be completed has moved nothing. The two saves belong to
/// different characters.
pub fn transfer(from_stored: &[u8], to_stored: &[u8], amount: u32) -> (r: Transfer)
    ensures
        match r {
            Transfer::Moved { from_image, to_image, from_left, to_total } => transferred(
                from_stored@,
                to_stored@,
                amount,
            ) == Some((from_image@, to_image@, from_left, to_total)),
            Transfer::Nothing => transferred(from_stored@, to_stored@, amount) is None,
        },
{
    let from_balance: u32 = match money(from_stored) {
        Some(balance) => balance,
        None => {
            return Transfer::Nothing;
        },
    };
    let to_balance: u32 = match money(to_stored) {
        Some(balance) => balance,
        None => {
            return Transfer::Nothing;
        },
    };
    let moved: u32 = movable(from_balance, to_balance, amount);
    if moved == 0 {
        return Transfer::Nothing;
    }
    match (try_deduct(from_stored, moved), credit(to_stored, moved)) {
        (Some((from_image, from_left)), Some((to_image, to_total))) => Transfer::Moved {
            from_image,
            to_image,
            from_left,
            to_total,
        },
        _ => Transfer::Nothing,
    }
}

// ---------------------------------------------------------------------------------------------
// Laws
// ---------------------------------------------------------------------------------------------

/// A save whose money was replaced reads as holding that amount, and otherwise as before.
pub proof fn law_replaced_money_is_what_is_read(stored: Seq<u8>, amount: u32, out: Seq<u8>)
    requires
        money_replaced(stored, amount) == Some(out),
    ensures
        ({
            let s = state::parsed(stored)->0;
            &&& state::parsed(out) matches Some(t)
            &&& t.money() == amount
            &&& t.coins() == s.coins()
            &&& t.party == s.party
            &&& t.bag == s.bag
            &&& t.flags == s.flags
            &&& t.vars == s.vars
            &&& t.encryption_key == s.encryption_key
        }),
{
    let s = state::parsed(stored)->0;
    let block = edit::money_set(s.block1, s.encryption_key, amount);
    edit::law_authored_block_is_what_is_parsed(stored, s, block, out);
    edit::law_money_is_set_and_nothing_else(s.block1, s.encryption_key, amount);
}

/// A transfer neither makes nor destroys money, and never lifts the receiver over the cap.
pub proof fn law_transfers_conserve_money(from: u32, to: u32, amount: u32)
    ensures
        ({
            let moved = movable_amount(from, to, amount);
            &&& 0 <= moved <= amount
            &&& moved <= from
            &&& moved > 0 ==> to + moved <= MAX_MONEY
            &&& moved > 0 ==> credited_balance(to, moved as u32) == to + moved
            &&& (from - moved) + (to + moved) == from + to
        }),
{
}

/// The money in a stored save; none in one that cannot be read.
pub open spec fn money_in(stored: Seq<u8>) -> int {
    match state::parsed(stored) {
        Some(s) => s.money() as int,
        None => 0,
    }
}

/// The two saves as they are stored after a transfer: rewritten, or as they were.
pub open spec fn after_transfer(from_stored: Seq<u8>, to_stored: Seq<u8>, amount: u32) -> (
    Seq<u8>,
    Seq<u8>,
) {
    match transferred(from_stored, to_stored, amount) {
        Some((from_image, to_image, _, _)) => (from_image, to_image),
        None => (from_stored, to_stored),
    }
}

/// However a transfer ends, the two saves, as they are then read, hold together what they held. The
/// sender never holds more than before, the receiver never less, and one who receives is not lifted
/// over the cap. The balances that are reported are those that are read.
pub proof fn law_transferred_saves_hold_what_they_held(
    from_stored: Seq<u8>,
    to_stored: Seq<u8>,
    amount: u32,
)
    ensures
        ({
            let (from_after, to_after) = after_transfer(from_stored, to_stored, amount);
            &&& money_in(from_after) + money_in(to_after) == money_in(from_stored) + money_in(
                to_stored,
            )
            &&& money_in(from_after) <= money_in(from_stored)
            &&& money_in(to_after) >= money_in(to_stored)
            &&& transferred(from_stored, to_stored, amount) matches Some(t) ==> {
                &&& money_in(from_after) == t.2
                &&& money_in(to_after) == t.3
                &&& t.3 <= MAX_MONEY
                &&& t.2 < money_in(from_stored)
            }
        }),
{
    match transferred(from_stored, to_stored, amount) {
        Some((from_image, to_image, left, total)) => {
            let f = state::parsed(from_stored)->0.money();
            let t = state::parsed(to_stored)->0.money();
            law_transfers_conserve_money(f, t, amount);
            law_replaced_money_is_what_is_read(from_stored, left, from_image);
            law_replaced_money_is_what_is_read(to_stored, total, to_image);
        },
        None => {},
    }
}

/// The bank never loses money: depositing or withdrawing keeps the sum of wallet and bank, and a
/// withdrawal never lifts a wallet over the cap.
pub proof fn law_the_bank_never_loses_money(carried: u32, bank: u64)
    ensures
        ({
            let moved = withdrawn(carried, bank);
            &&& 0 <= moved <= bank
            &&& (carried + moved) + (bank - moved) == carried + bank
            &&& carried <= MAX_MONEY ==> carried + moved <= MAX_MONEY
            &&& carried > MAX_MONEY ==> moved == 0
            &&& bank - moved > 0 ==> carried + moved >= MAX_MONEY
        }),
{
}

} // verus!
