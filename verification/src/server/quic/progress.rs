//! From a report of progress to what is stored of it.
//!
//! A report is proposed against the stored save, paced by the caller's allowance where it can carry
//! a gain, and then settled: refused, or stored together with what the server keeps beside the save.

use super::super::quest_flags;
use super::super::quest_flags::badge_count;
use super::super::save_parse::judge;
use super::super::save_parse::state;
use super::super::save_parse::state::{SaveState, SaveView};
use super::control;
use super::reports;
use super::reports::{
    broken_rule, first_save, over_caps, report_block, report_item, report_money, report_party,
    report_region, BlockCandidate, Candidate, CandidateView, CapRefusal, Refusal, RefusalView, Rules,
};
use crate::text;
use vstd::prelude::*;

verus! {

/// What a client reports of its progress.
pub enum Report {
    Money { amount: u32 },
    Item { pocket: u8, item: u16, quantity: u16 },
    Party { count: u8, mons: Vec<u8> },
    Region { offset: u32, bytes: Vec<u8> },
    /// A whole block, reassembled.
    Block { block: u8, bytes: Vec<u8> },
}

/// The save that a report implies, and the rules applied to it.
pub open spec fn proposed(report: Report, stored: Seq<u8>) -> Result<CandidateView, RefusalView> {
    match report {
        Report::Money { amount } => reports::money_reported(stored, amount),
        Report::Item { pocket, item, quantity } => reports::item_reported(
            stored,
            pocket,
            item,
            quantity,
        ),
        Report::Party { count, mons } => reports::party_reported(stored, count, mons@),
        Report::Region { offset, bytes } => reports::region_reported(stored, offset, bytes@),
        Report::Block { block, bytes } => match reports::block_reported(stored, block, bytes@) {
            Err(e) => Err(e),
            Ok((_, _, c)) => match reports::broken(c.before, c.after, Rules::ProgressAndBadges) {
                Some(message) => Err(RefusalView::Rule(message)),
                None => Ok(c),
            },
        },
    }
}

/// Builds the save that a report implies, and applies the rules to it.
pub fn propose(report: &Report, stored: &[u8]) -> (r: Result<Candidate, Refusal>)
    ensures
        reports::outcome(r) == proposed(*report, stored@),
{
    match report {
        Report::Money { amount } => report_money(stored, *amount),
        Report::Item { pocket, item, quantity } => report_item(stored, *pocket, *item, *quantity),
        Report::Party { count, mons } => report_party(stored, *count, mons),
        Report::Region { offset, bytes } => report_region(stored, *offset, bytes),
        Report::Block { block, bytes } => {
            let whole: BlockCandidate = match report_block(stored, *block, bytes) {
                Ok(whole) => whole,
                Err(e) => {
                    return Err(e);
                },
            };
            let c: Candidate = whole.candidate;
            match broken_rule(&c.before, &c.after, Rules::ProgressAndBadges) {
                Some(message) => Err(Refusal::Rule(message)),
                None => Ok(c),
            }
        },
    }
}

/// The report can carry a gain of money or experience, and has to fit the allowance.
pub open spec fn is_paced(report: Report) -> bool {
    !(report is Item)
}

/// Whether a report has to fit the allowance.
pub fn paced(report: &Report) -> (r: bool)
    ensures
        r == is_paced(*report),
{
    match report {
        Report::Item { .. } => false,
        _ => true,
    }
}

/// What is stored of a report that is taken.
pub struct Accepted {
    pub image: Vec<u8>,
    pub after: SaveState,
    /// The bag and the party are projected into their tables.
    pub bag: bool,
    /// The flags and variables of the story are.
    pub story: bool,
    /// How many Pokemon the name tag shows from now on.
    pub party_count: Option<u8>,
    /// The badge count that the save implies.
    pub badges: Option<u8>,
}

/// What becomes of a report.
pub enum Settled {
    /// It gains more than the allowance covers.
    TooFast,
    /// The party is too much for a character of the permadeath world.
    OverCaps(CapRefusal),
    Stored(Accepted),
}

/// What is stored of a report that is taken, over its candidate.
pub open spec fn keeps(report: Report, c: CandidateView, a: Accepted) -> bool {
    &&& a.image@ == c.image
    &&& a.after@ == c.after
    &&& a.bag == (report is Item || report is Party)
    &&& a.story == report is Region
    &&& a.party_count == (if report is Party {
        Some((c.after.party.len() % 256) as u8)
    } else {
        None
    })
    &&& a.badges == (if report is Party || report is Region || report is Block {
        Some(quest_flags::badges_held(c.after.flags, 8) as u8)
    } else {
        None
    })
}

/// Settles a report that the rules let pass. `allowed` says whether the allowance covers it, and
/// counts only for a report that is paced.
pub fn settle(report: &Report, candidate: Candidate, mode: &str, allowed: bool) -> (r: Settled)
    ensures
        ({
            let c = candidate@;
            let caps = reports::cap_refusal(c.after);
            if is_paced(*report) && !allowed {
                r is TooFast
            } else if *report is Party && control::plays_deadman(mode@) && caps is Some {
                r matches Settled::OverCaps(why) && Some(why) == caps
            } else {
                r matches Settled::Stored(a) && keeps(*report, c, a)
            }
        }),
{
    if paced(report) && !allowed {
        return Settled::TooFast;
    }
    let badges: u8 = badge_count(&candidate.after);
    let size: u8 = (candidate.after.party.len() % 256) as u8;
    assert(candidate@.after.party.len() == candidate.after.party@.len());
    let (bag, story, party_count, told): (bool, bool, Option<u8>, Option<u8>) = match report {
        Report::Money { .. } => (false, false, None, None),
        Report::Item { .. } => (true, false, None, None),
        Report::Party { .. } => {
            if text::is_text(mode, "deadman") {
                match over_caps(&candidate.after) {
                    Some(why) => {
                        return Settled::OverCaps(why);
                    },
                    None => {},
                }
            }
            (true, false, Some(size), Some(badges))
        },
        Report::Region { .. } => (false, true, None, Some(badges)),
        Report::Block { .. } => (false, false, None, Some(badges)),
    };
    Settled::Stored(
        Accepted {
            image: candidate.image,
            after: candidate.after,
            bag,
            story,
            party_count,
            badges: told,
        },
    )
}

/// What becomes of a whole save that a client uploads.
pub enum FirstSave {
    /// The server already holds a save: changes come as reports.
    Held,
    Refused(Refusal),
    /// It is the character's first, and is stored with its bag, its party and its story.
    Stored(SaveState),
}

/// Decides what becomes of a whole save. It is taken only where none is stored, and only if the
/// server can read it and it could have come from playing.
pub fn take_first_save(held: bool, uploaded: &[u8]) -> (r: FirstSave)
    ensures
        match state::parsed(uploaded@) {
            _ if held => r is Held,
            None => r matches FirstSave::Refused(e) && e@ == RefusalView::Unreadable,
            Some(s) => match judge::fault(s) {
                Some(message) => r matches FirstSave::Refused(e) && e@ == RefusalView::Rule(
                    message,
                ),
                None => r matches FirstSave::Stored(state) && state@ == s,
            },
        },
{
    if held {
        return FirstSave::Held;
    }
    match first_save(uploaded) {
        Ok(s) => FirstSave::Stored(s),
        Err(e) => FirstSave::Refused(e),
    }
}

// ---------------------------------------------------------------------------------------------
// Laws
// ---------------------------------------------------------------------------------------------

/// Whatever is reported, the save that comes of it can be read, holds nothing that could not have
/// come from playing, and holds no Pokemon that went backwards; and where the report carries the
/// story's flags, no badge is lost.
pub proof fn law_no_report_breaks_a_rule(report: Report, stored: Seq<u8>)
    requires
        proposed(report, stored) is Ok,
    ensures
        ({
            let c = proposed(report, stored)->Ok_0;
            &&& state::parsed(stored) == Some(c.before)
            &&& state::parsed(c.image) == Some(c.after)
            &&& judge::fault(c.after) is None
            &&& judge::party_loss(c.before.party, c.after.party, 0) is None
            &&& report is Region || report is Block ==> reports::badge_loss(c.before, c.after)
                is None
        }),
{
}

/// A party of the permadeath world that is stored is within the caps of its badges.
pub proof fn law_stored_parties_are_within_the_caps(s: SaveView)
    requires
        reports::cap_refusal(s) is None,
    ensures
        ({
            let row = super::super::deadman::badge_row(
                quest_flags::badges_held(s.flags, 8) as u8,
            );
            forall|i: int|
                0 <= i < s.party.len() && (#[trigger] s.party[i]).species != 0 ==> s.party[i].level
                    <= super::super::deadman::LEVEL_CAP_BY_BADGES@[row]
        }),
{
    let row = super::super::deadman::badge_row(quest_flags::badges_held(s.flags, 8) as u8);
    lemma_within_level(s.party, super::super::deadman::LEVEL_CAP_BY_BADGES@[row], 0);
}

proof fn lemma_within_level(party: Seq<super::super::save_parse::mon::MonView>, cap: u8, i: int)
    requires
        0 <= i,
        reports::over_level(party, cap, i) is None,
    ensures
        forall|j: int|
            i <= j < party.len() && (#[trigger] party[j]).species != 0 ==> party[j].level <= cap,
    decreases party.len() - i,
{
    if i < party.len() {
        lemma_within_level(party, cap, i + 1);
    }
}

} // verus!
