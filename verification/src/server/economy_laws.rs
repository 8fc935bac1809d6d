//! What moves of money, and when it does.

use super::economy;
use super::save_parse::edit;
use super::save_parse::image;
use super::save_parse::image_laws;
use super::save_parse::state;
use super::save_parse::write_laws;
use vstd::prelude::*;

verus! {

/// A stored save can be read, and its money can be written.
pub open spec fn is_account(stored: Seq<u8>) -> bool {
    state::parsed(stored) is Some && economy::money_replaced(stored, 0) is Some
}

/// The money that a stored save that can be read holds.
pub open spec fn balance(stored: Seq<u8>) -> int {
    state::parsed(stored)->0.money() as int
}

/// Where one amount can be written so can every other, and what was written is what is then read,
/// with nothing else changed that the server reads.
pub proof fn law_any_amount_can_be_written(stored: Seq<u8>, one: u32, other: u32)
    requires
        economy::money_replaced(stored, one) is Some,
    ensures
        economy::money_replaced(stored, other) matches Some(out) && balance(out) == other
            && state::parsed(out)->0.party == state::parsed(stored)->0.party && state::parsed(
            out,
        )->0.bag == state::parsed(stored)->0.bag,
{
    let s = state::parsed(stored)->0;
    let (a, b) = (
        edit::money_set(s.block1, s.encryption_key, one),
        edit::money_set(s.block1, s.encryption_key, other),
    );
    let sectors = image::SAVEBLOCK1_SECTORS@;
    image_laws::law_authoring_is_faithful(stored, sectors, a);
    image_laws::law_authoring_is_faithful(stored, sectors, b);
    let out = economy::money_replaced(stored, other)->0;
    economy::law_replaced_money_is_what_is_read(stored, other, out);
}

/// A stake is taken if and only if the account holds that much; it then holds that much less, and
/// so it says.
pub proof fn law_stakes_are_taken_from_those_who_have_them(stored: Seq<u8>, amount: u32)
    requires
        is_account(stored),
    ensures
        economy::deducted(stored, amount) is Some <==> balance(stored) >= amount,
        economy::deducted(stored, amount) matches Some((out, left)) ==> {
            &&& balance(out) + amount == balance(stored)
            &&& left == balance(out)
        },
{
    let left = (balance(stored) - amount) as u32;
    if balance(stored) >= amount {
        law_any_amount_can_be_written(stored, 0, left);
    }
}

/// What is paid out arrives, and so it says; only what a wallet cannot hold is lost.
pub proof fn law_pay_arrives(stored: Seq<u8>, amount: u32)
    requires
        is_account(stored),
    ensures
        economy::credited(stored, amount) matches Some((out, total)) && total == balance(out)
            && balance(out) == (if balance(stored) + amount <= 999_999 {
            balance(stored) + amount
        } else {
            999_999
        }),
{
    law_any_amount_can_be_written(
        stored,
        0,
        economy::credited_balance(state::parsed(stored)->0.money(), amount),
    );
}

/// An account stays one, whatever is written into it.
pub proof fn law_accounts_stay_accounts(stored: Seq<u8>, amount: u32)
    requires
        is_account(stored),
    ensures
        economy::money_replaced(stored, amount) matches Some(out) && is_account(out),
{
    law_any_amount_can_be_written(stored, 0, amount);
    let out = economy::money_replaced(stored, amount)->0;
    let (s, t) = (state::parsed(stored)->0, state::parsed(out)->0);
    let sectors = image::SAVEBLOCK1_SECTORS@;
    let block = edit::money_set(s.block1, s.encryption_key, amount);
    let next = edit::money_set(t.block1, t.encryption_key, 0);
    image_laws::law_block_sectors_are_apart();
    image_laws::law_authoring_is_faithful(stored, sectors, block);
    image_laws::law_authoring_is_faithful(out, sectors, next);
    edit::law_authored_block_is_what_is_parsed(stored, s, block, out);
    write_laws::law_written_images_can_be_written_again(stored, sectors, block, out, next);
}

/// A stake that is taken and paid back leaves the account with what it held.
pub proof fn law_refunds_undo_stakes(stored: Seq<u8>, amount: u32)
    requires
        is_account(stored),
        amount <= balance(stored) <= 999_999,
    ensures
        ({
            let out = (economy::deducted(stored, amount)->0).0;
            economy::credited(out, amount) matches Some((back, total)) && balance(back) == balance(
                stored,
            ) && total == balance(stored)
        }),
{
    law_stakes_are_taken_from_those_who_have_them(stored, amount);
    law_accounts_stay_accounts(stored, (balance(stored) - amount) as u32);
    law_pay_arrives((economy::deducted(stored, amount)->0).0, amount);
}

/// Between two accounts so much moves as was asked for, or all that the sender has, or all that the
/// receiver has room for, whichever is least; nothing happens only where that is nothing.
pub proof fn law_transfers_move_what_can_move(from: Seq<u8>, to: Seq<u8>, amount: u32)
    requires
        is_account(from),
        is_account(to),
        balance(to) <= 999_999,
    ensures
        match economy::transferred(from, to, amount) {
            None => amount == 0 || balance(from) == 0 || balance(to) == 999_999,
            Some((sender, receiver, left, total)) => {
                let moved = balance(from) - balance(sender);
                &&& left == balance(sender) && total == balance(receiver)
                &&& balance(receiver) - balance(to) == moved
                &&& 0 < moved <= amount
                &&& moved == amount || balance(sender) == 0 || balance(receiver) == 999_999
            },
        },
{
    let moved = economy::movable_amount(
        state::parsed(from)->0.money(),
        state::parsed(to)->0.money(),
        amount,
    ) as u32;
    law_stakes_are_taken_from_those_who_have_them(from, moved);
    law_pay_arrives(to, moved);
}

} // verus!
