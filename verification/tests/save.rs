//! Reading, judging and authoring saves.

use pokeplanet::server::save_parse::edit::{
    with_item, with_money, with_party, with_region, REPORTABLE,
};
use pokeplanet::server::save_parse::image::{
    checksum, read_block, reauthor, reauthor_block, reportable_block, with_tail, write_block,
    write_block1, NUM_SECTORS, SAVEBLOCK1_SECTORS, SAVEBLOCK2_SECTORS, SECTORS_PER_SLOT,
    SECTOR_DATA_SIZE, SECTOR_SIGNATURE, SECTOR_SIZE, STORAGE_SECTORS,
};
use pokeplanet::server::save_parse::judge::{
    diverged, regressed, MAX_ITEM_QUANTITY, MAX_MONEY,
};
use pokeplanet::server::save_parse::mon::{read_mon, PartyMon, MON_SIZE, SUBSTRUCT_ORDER};
use pokeplanet::server::save_parse::state::{
    parse, SaveState, FLAG_BYTES, OFFSET_COINS, OFFSET_FLAGS, OFFSET_MONEY, OFFSET_VARS,
    PARTY_SIZE, VAR_COUNT,
};

/// The mail, which nothing parses.
const OFFSET_MAIL: usize = 0x2BE0;

/// How much of the last SaveBlock1 sector its checksum covers.
const LAST: usize = 2000;

/// Writes a byte at a SaveBlock1 offset the parser knows nothing about, by finding the sector
/// that carries it rather than assuming where it sits.
fn poke(image: &mut [u8], slot: usize, offset: usize, byte: u8) {
    let n = offset / SECTOR_DATA_SIZE;
    let within = offset % SECTOR_DATA_SIZE;
    let want = SAVEBLOCK1_SECTORS[n];
    for i in 0..SECTORS_PER_SLOT {
        let start = (slot * SECTORS_PER_SLOT + i) * SECTOR_SIZE;
        let footer = start + SECTOR_DATA_SIZE + 116;
        let id = u16::from_le_bytes([image[footer], image[footer + 1]]);
        if id == want {
            image[start + within] = byte;
            return;
        }
    }
    panic!("no sector carries offset {offset:#X}");
}

/// Stamps real checksums into a fixture, the way the game would. `last` is the size the final
/// SaveBlock1 chunk declares.
fn sign(image: &mut [u8], slot: usize, last: usize) {
    for i in 0..SECTORS_PER_SLOT {
        let start = (slot * SECTORS_PER_SLOT + i) * SECTOR_SIZE;
        let footer = start + SECTOR_DATA_SIZE + 116;
        let id = u16::from_le_bytes([image[footer], image[footer + 1]]);
        let size = if id == *SAVEBLOCK1_SECTORS.last().unwrap() {
            last
        } else {
            SECTOR_DATA_SIZE
        };
        let sum = checksum(&image[start..start + SECTOR_DATA_SIZE], size);
        image[footer + 2..footer + 4].copy_from_slice(&sum.to_le_bytes());
    }
}

/// Builds an image with one readable slot.
fn image_with(slot: usize, counter: u32, flags: &[u8], vars: &[u16], money: u32) -> Vec<u8> {
    let mut image = vec![0u8; NUM_SECTORS * SECTOR_SIZE];

    // SaveBlock1 laid out contiguously, then cut into sector-sized pieces.
    let mut block = vec![0u8; SAVEBLOCK1_SECTORS.len() * SECTOR_DATA_SIZE];
    block[OFFSET_MONEY..OFFSET_MONEY + 4].copy_from_slice(&money.to_le_bytes());
    block[OFFSET_FLAGS..OFFSET_FLAGS + flags.len()].copy_from_slice(flags);
    for (i, v) in vars.iter().enumerate() {
        let at = OFFSET_VARS + i * 2;
        block[at..at + 2].copy_from_slice(&v.to_le_bytes());
    }

    for i in 0..SECTORS_PER_SLOT {
        let index = slot * SECTORS_PER_SLOT + i;
        let start = index * SECTOR_SIZE;
        // Deliberately not in id order: the game rotates them.
        let id = ((i + 3) % SECTORS_PER_SLOT) as u16;
        if let Some(n) = SAVEBLOCK1_SECTORS.iter().position(|s| *s == id) {
            let from = n * SECTOR_DATA_SIZE;
            image[start..start + SECTOR_DATA_SIZE]
                .copy_from_slice(&block[from..from + SECTOR_DATA_SIZE]);
        }
        let footer = start + SECTOR_DATA_SIZE + 116;
        image[footer..footer + 2].copy_from_slice(&id.to_le_bytes());
        image[footer + 4..footer + 8].copy_from_slice(&SECTOR_SIGNATURE.to_le_bytes());
        image[footer + 8..footer + 12].copy_from_slice(&counter.to_le_bytes());
    }

    image
}

/// A state carrying one Pokemon.
fn with_mon(level: u8, experience: u32, checksum_ok: bool) -> SaveState {
    SaveState {
        flags: vec![],
        vars: vec![],
        money_raw: 0,
        coins_raw: 0,
        encryption_key: 0,
        bag: vec![],
        seen: vec![],
        game_stats: vec![],
        block1: vec![],
        berry_trees: vec![],
        rematches: vec![],
        party: vec![PartyMon {
            personality: 7,
            ot_id: 7,
            species: 1,
            level,
            experience,
            evs: [0; 6],
            checksum_ok,
        }],
    }
}

#[test]
fn the_whole_block_survives_including_what_is_not_parsed() {
    let mut image = image_with(0, 1, &[], &[], 0);
    poke(&mut image, 0, OFFSET_MAIL, 0xA7);

    let state = parse(&image).expect("readable save");

    assert_eq!(
        state.block1.len(),
        SAVEBLOCK1_SECTORS.len() * SECTOR_DATA_SIZE,
        "the block should be kept whole, not truncated to the parsed region"
    );
    assert_eq!(
        state.block1[OFFSET_MAIL], 0xA7,
        "a byte no field parses still has to come back"
    );

    let mut clean = image_with(0, 1, &[], &[], 0);
    poke(&mut clean, 0, OFFSET_MAIL, 0x00);
    let unmarked = parse(&clean).expect("readable save");
    assert_eq!(
        unmarked.block1[OFFSET_MAIL], 0x00,
        "the byte must track the save, not be a constant this test wrote"
    );
}

#[test]
fn authoring_changes_the_one_field_and_leaves_the_rest() {
    let mut image = image_with(0, 1, &[0xFF, 0x0F], &[7, 9], 1234);
    poke(&mut image, 0, 0x2BE0, 0xA7);
    sign(&mut image, 0, 2000);

    let before = parse(&image).expect("readable");

    // Change money the way the server would: in the block, not in the image.
    let mut block1 = before.block1.clone();
    let new_money = 4321u32 ^ before.encryption_key;
    block1[OFFSET_MONEY..OFFSET_MONEY + 4].copy_from_slice(&new_money.to_le_bytes());

    let rebuilt = reauthor(&image, &block1).expect("authoring should succeed");
    let after = parse(&rebuilt).expect("the rebuilt save must still parse");

    assert_eq!(after.money(), 4321, "the field asked for should change");
    assert_eq!(before.money(), 1234, "and it should not have been that already");
    assert_eq!(after.flags, before.flags, "flags must survive authoring");
    assert_eq!(after.vars, before.vars, "vars must survive authoring");
    assert_eq!(
        after.block1[0x2BE0], 0xA7,
        "a field nothing parses must survive being rewritten around"
    );
    assert_eq!(rebuilt.len(), image.len(), "the image must keep its shape");
}

#[test]
fn authored_checksums_match_the_games_own() {
    let mut image = image_with(0, 1, &[0xFF], &[3], 100);
    sign(&mut image, 0, LAST);

    let mut block1 = parse(&image).expect("readable").block1;
    block1[OFFSET_MONEY..OFFSET_MONEY + 4].copy_from_slice(&999u32.to_le_bytes());
    let rebuilt = reauthor(&image, &block1).expect("authoring should succeed");

    for i in 0..SECTORS_PER_SLOT {
        let start = i * SECTOR_SIZE;
        let footer = start + SECTOR_DATA_SIZE + 116;
        let id = u16::from_le_bytes([rebuilt[footer], rebuilt[footer + 1]]);
        if !SAVEBLOCK1_SECTORS.contains(&id) {
            continue;
        }
        let size = if id == *SAVEBLOCK1_SECTORS.last().unwrap() {
            LAST
        } else {
            SECTOR_DATA_SIZE
        };
        let want = checksum(&rebuilt[start..start + SECTOR_DATA_SIZE], size);
        let got = u16::from_le_bytes([rebuilt[footer + 2], rebuilt[footer + 3]]);
        assert_eq!(got, want, "sector {id} carries a checksum the game would reject");
    }
}

#[test]
fn authoring_refuses_what_it_cannot_do_faithfully() {
    let mut image = image_with(0, 1, &[0xFF], &[3], 100);
    sign(&mut image, 0, 2000);
    let block1 = parse(&image).expect("readable").block1;

    assert!(
        reauthor(&image, &block1[..100]).is_none(),
        "a block of the wrong length must be refused, not padded"
    );
    assert!(
        reauthor(&image[..1000], &block1).is_none(),
        "an image of the wrong length must be refused, not extended"
    );

    // A sector whose checksum matches no size at all.
    let mut broken = image.clone();
    for i in 0..SECTORS_PER_SLOT {
        let footer = i * SECTOR_SIZE + SECTOR_DATA_SIZE + 116;
        let id = u16::from_le_bytes([broken[footer], broken[footer + 1]]);
        if id == SAVEBLOCK1_SECTORS[0] {
            // Non-zero data with a checksum that cannot arise from any prefix of it.
            broken[i * SECTOR_SIZE] = 0x11;
            broken[footer + 2..footer + 4].copy_from_slice(&0xBEEFu16.to_le_bytes());
        }
    }
    assert!(
        reauthor(&broken, &block1).is_none(),
        "an unrecoverable size must stop authoring, not produce a corrupt save"
    );
}

#[test]
fn reported_money_is_written_and_still_checkable() {
    let mut image = image_with(0, 1, &[0xFF, 0x0F], &[7, 9], 1234);
    poke(&mut image, 0, 0x2BE0, 0xA7);
    sign(&mut image, 0, 2000);

    let old = parse(&image).expect("readable");
    assert_eq!(old.money(), 1234, "the starting point must not already be the answer");

    let candidate = reauthor(&image, &with_money(&old, 8000)).expect("authoring should succeed");
    let new = parse(&candidate).expect("the rebuilt save must parse");

    assert_eq!(new.money(), 8000, "the reported value should be what the save now holds");
    assert_eq!(new.flags, old.flags, "nothing else should move");
    assert_eq!(new.block1[0x2BE0], 0xA7, "including what nothing parses");

    let absurd = reauthor(&image, &with_money(&old, 9_999_999)).expect("authoring");
    let absurd = parse(&absurd).expect("parses");
    assert!(
        absurd.impossible().is_some(),
        "a value above what the game clamps to must still be caught after being written"
    );

    assert!(
        new.impossible().is_none(),
        "a normal amount must pass, otherwise the rule catches nothing in particular"
    );
}

#[test]
fn reported_items_are_written_where_they_belong() {
    let mut image = image_with(0, 1, &[0xFF], &[3], 100);
    sign(&mut image, 0, 2000);
    let old = parse(&image).expect("readable");
    assert!(old.bag.is_empty(), "the bag must start empty or this proves nothing");

    // Key items are second in the save.
    let block1 = with_item(&old, 1, 260, 1).expect("a free slot exists");
    let new = parse(&reauthor(&image, &block1).expect("authoring")).expect("parses");
    assert_eq!(new.bag, vec![(1u8, 260u16, 1u16)], "one key item, in the key item pocket");

    let block1 = with_item(&old, 4, 133, 7).expect("a free slot exists");
    let new = parse(&reauthor(&image, &block1).expect("authoring")).expect("parses");
    assert_eq!(new.bag, vec![(4u8, 133u16, 7u16)], "berries land in the berry pocket");

    // Adding to an existing entry sets the count rather than making a second slot.
    let block1 = with_item(&new, 4, 133, 12).expect("the slot is already there");
    let again = parse(&reauthor(&image, &block1).expect("authoring")).expect("parses");
    assert_eq!(again.bag, vec![(4u8, 133u16, 12u16)], "one slot, updated");

    // Zero clears the slot entirely.
    let block1 = with_item(&again, 4, 133, 0).expect("clearing works");
    let gone = parse(&reauthor(&image, &block1).expect("authoring")).expect("parses");
    assert!(gone.bag.is_empty(), "a count of zero should leave no slot behind");

    assert!(with_item(&old, 9, 1, 1).is_none(), "there is no ninth pocket");
}

#[test]
fn a_reported_item_above_the_cap_is_still_refused() {
    let mut image = image_with(0, 1, &[0xFF], &[3], 100);
    sign(&mut image, 0, 2000);
    let old = parse(&image).expect("readable");

    let over = with_item(&old, 0, 13, MAX_ITEM_QUANTITY + 1).expect("writes");
    let over = parse(&reauthor(&image, &over).expect("authoring")).expect("parses");
    assert!(
        over.impossible().is_some(),
        "more than a slot can hold must be caught however it arrived"
    );

    let at_cap = with_item(&old, 0, 13, MAX_ITEM_QUANTITY).expect("writes");
    let at_cap = parse(&reauthor(&image, &at_cap).expect("authoring")).expect("parses");
    assert!(
        at_cap.impossible().is_none(),
        "a full but legal slot must be accepted"
    );
}

#[test]
fn a_reported_party_is_written_and_still_checked() {
    let mut image = image_with(0, 1, &[0xFF], &[3], 100);
    sign(&mut image, 0, 2000);
    let old = parse(&image).expect("readable");
    assert!(old.party.is_empty(), "the party must start empty or this proves nothing");

    // One Pokemon at a legal level. Level lives at 0x54 within the hundred-byte record.
    let mut mons = vec![0u8; PARTY_SIZE * MON_SIZE];
    mons[0..4].copy_from_slice(&0x1234_5678u32.to_le_bytes()); // personality
    mons[0x54] = 50;

    let block1 = with_party(&old, 1, &mons).expect("a party of one fits");
    let new = parse(&reauthor(&image, &block1).expect("authoring")).expect("parses");
    assert_eq!(new.party.len(), 1, "one Pokemon should have been written");
    assert_eq!(new.party[0].level, 50, "at the level reported");
    assert!(new.impossible().is_none(), "a level 50 Pokemon is ordinary");

    let mut cheated = mons.clone();
    cheated[0x54] = 200;
    let block1 = with_party(&old, 1, &cheated).expect("writes");
    let bad = parse(&reauthor(&image, &block1).expect("authoring")).expect("parses");
    assert!(
        bad.impossible().is_some(),
        "a level the game cannot reach must be refused however it arrived"
    );

    assert!(with_party(&old, 1, &mons[..10]).is_none(), "a short party must be refused");
    assert!(with_party(&old, 9, &mons).is_none(), "more than six must be refused");
}

#[test]
fn the_allowlist_is_what_the_game_was_told() {
    assert_eq!(
        &REPORTABLE[..],
        &[
            (0x0, 0x234),
            (0x848, 0x400),
            (0xC48, 0x400),
            (0x1048, 0x400),
            (0x1448, 0x400),
            (0x1848, 0x400),
            (0x1C48, 0x400),
            (0x2048, 0x400),
            (0x2448, 0x400),
            (0x2848, 0x400),
            (0x2C48, 0x400),
            (0x3048, 0x400),
            (0x3448, 0x400),
            (0x3848, 0x400),
            (0x3C48, 0x1B8),
        ][..],
        "if this changed, src/mmo_autosave.c must change with it"
    );
}

#[test]
fn only_listed_regions_can_be_written() {
    let mut image = image_with(0, 1, &[0xFF], &[3], 100);
    sign(&mut image, 0, 2000);
    let old = parse(&image).expect("readable");

    // The chunk that happens to contain the story flags, found rather than assumed.
    let &(at, len) = REPORTABLE
        .iter()
        .find(|&&(at, len)| at <= OFFSET_FLAGS && OFFSET_FLAGS < at + len)
        .expect("the flags must be inside some reportable chunk");

    let mut chunk = old.block1[at..at + len].to_vec();
    chunk[OFFSET_FLAGS - at] = 0xAB;
    let block1 = with_region(&old, at, &chunk).expect("a listed chunk is writable");
    let new = parse(&reauthor(&image, &block1).expect("authoring")).expect("parses");
    assert_eq!(new.flags[0], 0xAB, "the reported chunk should be what the save now holds");
    assert_ne!(old.flags[0], 0xAB, "and must not have been that already");

    assert!(
        with_region(&old, at + 1, &chunk).is_none(),
        "an unlisted offset must be refused"
    );
    assert!(
        with_region(&old, at, &chunk[..8]).is_none(),
        "a partial chunk must be refused, not padded or merged"
    );

    for &(at, len) in &REPORTABLE {
        assert!(
            at + len <= 0x234 || at >= 0x848,
            "chunk at {at:#X} overlaps the protected span"
        );
    }
    assert!(
        with_region(&old, OFFSET_MONEY, &[0u8; 4]).is_none(),
        "money must not be writable as a raw region"
    );
}

#[test]
fn any_block_can_be_authored_not_just_saveblock1() {
    let mut image = image_with(0, 1, &[0xFF], &[3], 100);
    sign(&mut image, 0, 2000);

    for sectors in [&STORAGE_SECTORS[..], &SAVEBLOCK2_SECTORS[..]] {
        let original = read_block(&image, sectors).expect("the block should be readable");
        assert_eq!(
            original.len(),
            sectors.len() * SECTOR_DATA_SIZE,
            "a block should come back whole"
        );

        let mut changed = original.clone();
        changed[0] = 0x5A;
        changed[original.len() - 1] = 0xC3;

        let rebuilt = reauthor_block(&image, sectors, &changed).expect("authoring");
        let back = read_block(&rebuilt, sectors).expect("readable after writing");
        assert_eq!(back, changed, "what was written should be what comes back");
        assert_eq!(rebuilt.len(), image.len(), "the image must keep its shape");

        assert_ne!(
            back, original,
            "the block must actually have changed, or this proves nothing"
        );

        assert_eq!(
            read_block(&rebuilt, &SAVEBLOCK1_SECTORS).unwrap(),
            read_block(&image, &SAVEBLOCK1_SECTORS).unwrap(),
            "writing one block must not disturb another"
        );

        assert!(
            reauthor_block(&image, sectors, &changed[..10]).is_none(),
            "a block of the wrong length must be refused"
        );
    }
}

#[test]
fn regression_is_ignored_only_when_the_record_did_not_decode() {
    let good_high = with_mon(20, 8000, true);
    let good_low = with_mon(10, 2000, true);

    assert!(
        regressed(&good_high, &good_low).is_some(),
        "losing experience must still be caught -- if this passes, the rule is off"
    );
    assert!(
        regressed(&good_low, &good_high).is_none(),
        "gaining experience is not a regression"
    );

    assert!(
        regressed(&good_high, &with_mon(10, 2000, false)).is_none(),
        "an undecodable new record must not be read as a loss"
    );
    assert!(
        regressed(&with_mon(20, 8000, false), &good_low).is_none(),
        "an undecodable old record must not be read as a loss"
    );

    let mut level_drop = with_mon(10, 8000, true);
    level_drop.party[0].experience = good_high.party[0].experience;
    assert!(
        regressed(&good_high, &level_drop).is_some(),
        "losing levels must still be caught independently of experience"
    );
}

#[test]
fn divergence_is_found_only_where_it_exists() {
    let a = with_mon(20, 8000, true);

    assert!(diverged(&a, &a).is_none(), "identical accounts must agree");

    let mut lying = a.clone();
    lying.party[0].level = 60;
    assert!(diverged(&lying, &a).is_some(), "an invented level must be caught");

    let mut richer = a.clone();
    richer.party[0].experience = 999_999;
    assert!(diverged(&richer, &a).is_some(), "invented experience must be caught");

    let mut undecodable = a.clone();
    undecodable.party[0].level = 60;
    undecodable.party[0].checksum_ok = false;
    assert!(
        diverged(&undecodable, &a).is_none(),
        "a record that did not decode must not become an accusation"
    );

    let mut two = a.clone();
    let mut second = two.party[0].clone();
    second.personality = 99;
    second.ot_id = 99;
    two.party.push(second);
    let mut swapped = two.clone();
    swapped.party.swap(0, 1);
    assert!(
        diverged(&swapped, &two).is_none(),
        "reordering a party is not a disagreement"
    );
}

#[test]
fn reads_flags_vars_and_money() {
    let mut flags = vec![0u8; FLAG_BYTES];
    flags[0] = 0b1010_1010;
    flags[299] = 0xFF;
    let mut vars = vec![0u16; VAR_COUNT];
    vars[0] = 0x1234;
    vars[255] = 0xBEEF;

    let image = image_with(0, 7, &flags, &vars, 0xDEAD_BEEF);
    let state = parse(&image).expect("should parse");

    assert_eq!(state.flags, flags);
    assert_eq!(state.vars, vars);
    assert_eq!(state.money_raw, 0xDEAD_BEEF);
    // No SaveBlock2 written in this fixture, so the key is zero and money reads through.
    assert_eq!(state.money(), 0xDEAD_BEEF);
}

#[test]
fn prefers_the_slot_with_the_higher_counter() {
    let mut old_flags = vec![0u8; FLAG_BYTES];
    old_flags[0] = 0x01;
    let mut new_flags = vec![0u8; FLAG_BYTES];
    new_flags[0] = 0x02;

    let older = image_with(0, 4, &old_flags, &vec![0; VAR_COUNT], 0);
    let newer = image_with(1, 9, &new_flags, &vec![0; VAR_COUNT], 0);
    let mut image = older;
    // Splice the newer slot in alongside the older one.
    let at = SECTORS_PER_SLOT * SECTOR_SIZE;
    image[at..].copy_from_slice(&newer[at..]);

    let state = parse(&image).expect("should parse");
    assert_eq!(state.flags[0], 0x02, "the newer slot should win");
}

#[test]
fn an_honest_save_is_not_impossible() {
    let image = image_with(0, 1, &vec![0; FLAG_BYTES], &vec![0; VAR_COUNT], 3000);
    let state = parse(&image).expect("should parse");
    assert_eq!(state.money(), 3000);
    assert_eq!(state.impossible(), None);
}

#[test]
fn the_cap_itself_is_allowed() {
    let image = image_with(0, 1, &vec![0; FLAG_BYTES], &vec![0; VAR_COUNT], MAX_MONEY);
    let state = parse(&image).expect("should parse");
    assert_eq!(state.impossible(), None, "the cap is reachable, not a cheat");
}

#[test]
fn money_above_the_cap_is_impossible() {
    let image = image_with(0, 1, &vec![0; FLAG_BYTES], &vec![0; VAR_COUNT], MAX_MONEY + 1);
    let state = parse(&image).expect("should parse");
    assert!(state.impossible().is_some(), "above the cap should be caught");
}

#[test]
fn refuses_something_that_is_not_a_save() {
    assert!(parse(&[]).is_none());
    assert!(parse(&vec![0u8; 1024]).is_none());
    // Right size, but no signatures anywhere.
    assert!(parse(&vec![0u8; NUM_SECTORS * SECTOR_SIZE]).is_none());
}

#[test]
fn refuses_a_slot_with_missing_sectors() {
    let image = image_with(0, 3, &vec![0; FLAG_BYTES], &vec![0; VAR_COUNT], 0);
    let mut broken = image.clone();
    // Wipe one sector's signature.
    let footer = 5 * SECTOR_SIZE + SECTOR_DATA_SIZE + 116;
    broken[footer + 4..footer + 8].copy_from_slice(&0u32.to_le_bytes());
    assert!(parse(&broken).is_none(), "an incomplete slot is not loadable");
}

// ---------------------------------------------------------------------------------------------

/// A hundred-byte record whose substructs say what is asked for, encrypted and shuffled the way
/// the game does it.
fn record(personality: u32, ot_id: u32, species: u16, experience: u32, level: u8) -> Vec<u8> {
    let mut plain = [[0u8; 12]; 4];
    plain[0][0..2].copy_from_slice(&species.to_le_bytes());
    plain[0][4..8].copy_from_slice(&experience.to_le_bytes());
    plain[2][0..6].copy_from_slice(&[1, 2, 3, 4, 5, 6]);
    let mut sum = 0u16;
    let mut secure = [0u8; 48];
    for (kind, sub) in plain.iter().enumerate() {
        let slot = SUBSTRUCT_ORDER[(personality % 24) as usize][kind];
        secure[slot * 12..slot * 12 + 12].copy_from_slice(sub);
    }
    for pair in secure.chunks(2) {
        sum = sum.wrapping_add(u16::from_le_bytes([pair[0], pair[1]]));
    }
    let key = (personality ^ ot_id).to_le_bytes();
    for (i, b) in secure.iter_mut().enumerate() {
        *b ^= key[i % 4];
    }
    let mut out = vec![0u8; MON_SIZE];
    out[0..4].copy_from_slice(&personality.to_le_bytes());
    out[4..8].copy_from_slice(&ot_id.to_le_bytes());
    out[28..30].copy_from_slice(&sum.to_le_bytes());
    out[32..80].copy_from_slice(&secure);
    out[0x54] = level;
    out
}

#[test]
fn a_record_decodes_whatever_its_shuffle() {
    for p in 0..24u32 {
        let personality = 0x4000_0000 - (0x4000_0000 % 24) + p;
        let mon = read_mon(&record(personality, 0x1234_5678, 25, 1000, 10)).expect("a record");
        assert_eq!(mon.personality, personality);
        assert_eq!(mon.ot_id, 0x1234_5678);
        assert_eq!(mon.species, 25);
        assert_eq!(mon.experience, 1000);
        assert_eq!(mon.level, 10);
        assert_eq!(mon.evs, [1, 2, 3, 4, 5, 6]);
        assert!(mon.checksum_ok);
    }
}

#[test]
fn a_damaged_record_is_known_to_be_damaged() {
    let mut raw = record(24, 7, 25, 1000, 10);
    raw[40] ^= 1;
    assert!(!read_mon(&raw).expect("still a record").checksum_ok);
    assert!(read_mon(&raw[..50]).is_none());
}

#[test]
fn the_checksum_adds_words_and_folds_them() {
    let mut data = vec![0u8; 16];
    data[0..4].copy_from_slice(&0xFFFF_0001u32.to_le_bytes());
    data[4..8].copy_from_slice(&0x0001_0002u32.to_le_bytes());
    // The sum wraps to 0x0000_0003.
    assert_eq!(checksum(&data, 8), 3);
    // Over the first word alone: 0xFFFF + 0x0001 wraps to zero.
    assert_eq!(checksum(&data, 4), 0);
    assert_eq!(checksum(&data, 0), 0);
}

#[test]
fn every_impossible_thing_is_named() {
    let mut s = with_mon(10, 1000, true);
    s.money_raw = 1_000_000;
    assert_eq!(
        s.impossible().unwrap(),
        "money is 1000000, above the 999999 the game clamps to"
    );
    s.money_raw = 0;
    s.coins_raw = 10_000;
    assert_eq!(
        s.impossible().unwrap(),
        "coins are 10000, above the 9999 the game clamps to"
    );
    s.coins_raw = 0;
    s.bag = vec![(1, 260, 0)];
    assert_eq!(
        s.impossible().unwrap(),
        "bag pocket 2 holds 0 of item 260, which the game cannot store"
    );
    s.bag = vec![];
    assert_eq!(
        with_mon(101, 1000, false).impossible().unwrap(),
        "party slot 1 is level 101, above the maximum of 100"
    );
    assert_eq!(
        with_mon(50, 1_640_001, true).impossible().unwrap(),
        "party slot 1 has 1640001 experience, above the 1640000 any species can hold"
    );
    assert_eq!(
        with_mon(100, 599_999, true).impossible().unwrap(),
        "party slot 1 is level 100 on 599999 experience, below the 600000 it would need"
    );
    let mut trained = with_mon(50, 1000, true);
    trained.party[0].evs = [255, 255, 1, 0, 0, 0];
    assert_eq!(
        trained.impossible().unwrap(),
        "party slot 1 has 511 effort points, above the maximum of 510"
    );
    trained.party[0].evs = [255, 255, 0, 0, 0, 0];
    assert_eq!(trained.impossible(), None);
    assert_eq!(with_mon(50, 9_999_999, false).impossible(), None);
}

#[test]
fn losses_and_disagreements_say_what_moved() {
    assert_eq!(
        regressed(&with_mon(20, 8000, true), &with_mon(20, 2000, true)).unwrap(),
        "a Pokemon lost experience, going from 8000 to 2000"
    );
    assert_eq!(
        regressed(&with_mon(20, 8000, true), &with_mon(19, 8000, true)).unwrap(),
        "a Pokemon lost levels, going from 20 to 19"
    );
    let a = with_mon(20, 8000, true);
    let mut b = a.clone();
    b.money_raw = 5;
    assert_eq!(
        diverged(&b, &a).unwrap(),
        "money: client says 5, the server's own run produced 0"
    );
    let mut none = a.clone();
    none.party.clear();
    assert_eq!(
        diverged(&none, &a).unwrap(),
        "a Pokemon the server's run has (personality 7) is missing from the client's"
    );
    let mut bagged = a.clone();
    bagged.bag = vec![(0, 13, 2)];
    assert_eq!(
        diverged(&a, &bagged).unwrap(),
        "item 13: client says 0, the server's own run produced 2"
    );
    assert_eq!(
        diverged(&bagged, &a).unwrap(),
        "item 13: client says 2, the server's own run produced 0"
    );
    assert_eq!(
        diverged(&a, &none).unwrap(),
        "a Pokemon the client has (personality 7) is missing from the server's run"
    );
    let mut higher = a.clone();
    higher.party[0].level = 60;
    assert_eq!(
        diverged(&higher, &a).unwrap(),
        "level: client says 60, the server's own run produced 20"
    );
    let mut richer = a.clone();
    richer.party[0].experience = 9000;
    assert_eq!(
        diverged(&richer, &a).unwrap(),
        "experience: client says 9000, the server's own run produced 8000"
    );
}

#[test]
fn a_save_matches_itself_whatever_it_holds_twice() {
    let mut s = with_mon(20, 8000, true);
    s.bag = vec![(0, 13, 99), (0, 13, 5)];
    assert_eq!(diverged(&s, &s), None);
    // The same number in other stacks is no disagreement; another number is.
    let mut restacked = s.clone();
    restacked.bag = vec![(0, 13, 52), (0, 13, 52)];
    assert_eq!(diverged(&restacked, &s), None);
    restacked.bag = vec![(0, 13, 99)];
    assert_eq!(
        diverged(&restacked, &s).unwrap(),
        "item 13: client says 99, the server's own run produced 104"
    );
    restacked.bag = vec![(1, 13, 104)];
    assert!(diverged(&restacked, &s).is_some(), "another pocket");
    // Two records of one Pokemon.
    let mut two = s.clone();
    let mut weaker = two.party[0].clone();
    weaker.experience = 10;
    two.party.push(weaker);
    assert_eq!(diverged(&two, &two), None);
    let mut swapped = two.clone();
    swapped.party.swap(0, 1);
    assert_eq!(diverged(&swapped, &two), None);
    assert_eq!(
        diverged(&s, &two).unwrap(),
        "a Pokemon the server's run has (personality 7) is missing from the client's"
    );
    let mut twice = two.clone();
    twice.party[1].experience = 8000;
    assert_eq!(
        diverged(&twice, &two).unwrap(),
        "experience: client says 8000, the server's own run produced 10"
    );
}

#[test]
fn a_save_has_one_size() {
    let mut image = image_with(0, 1, &[1], &[2], 300);
    assert_eq!(parse(&image).unwrap().money(), 300);
    image.push(0);
    assert!(parse(&image).is_none(), "one byte too long");
    image.truncate(NUM_SECTORS * SECTOR_SIZE - 1);
    assert!(parse(&image).is_none(), "one byte too short");
}

#[test]
fn sectors_are_found_wherever_they_stand() {
    let image = image_with(0, 1, &[0xFF, 0x0F], &[7, 9], 1234);
    let mut moved = image.clone();
    for i in 0..SECTORS_PER_SLOT {
        let from = (i * 5 + 3) % SECTORS_PER_SLOT;
        moved[i * SECTOR_SIZE..(i + 1) * SECTOR_SIZE]
            .copy_from_slice(&image[from * SECTOR_SIZE..(from + 1) * SECTOR_SIZE]);
    }
    assert_ne!(moved, image);
    let (a, b) = (parse(&image).unwrap(), parse(&moved).unwrap());
    assert_eq!(a.block1, b.block1);
    assert_eq!(a.flags, b.flags);
    assert_eq!(a.vars, b.vars);
    assert_eq!(a.encryption_key, b.encryption_key);
    assert_eq!(b.money(), 1234);
}

#[test]
fn money_and_coins_are_hidden_by_the_saves_own_key() {
    let mut image = image_with(0, 1, &[], &[], 0);
    // SaveBlock2 is the sector with id 0; the key is at 0xAC of it.
    for i in 0..SECTORS_PER_SLOT {
        let footer = i * SECTOR_SIZE + SECTOR_DATA_SIZE + 116;
        if image[footer] == 0 && image[footer + 1] == 0 {
            image[i * SECTOR_SIZE + 0xAC..i * SECTOR_SIZE + 0xB0]
                .copy_from_slice(&0x1122_3344u32.to_le_bytes());
        }
    }
    for (i, b) in (0x1122_3344u32 ^ 777).to_le_bytes().iter().enumerate() {
        poke(&mut image, 0, OFFSET_MONEY + i, *b);
    }
    for (i, b) in (0x3344u16 ^ 55).to_le_bytes().iter().enumerate() {
        poke(&mut image, 0, OFFSET_COINS + i, *b);
    }
    sign(&mut image, 0, 2000);
    let s = parse(&image).expect("parses");
    assert_eq!(s.encryption_key, 0x1122_3344);
    assert_eq!(s.money(), 777);
    assert_eq!(s.coins(), 55);
    let again = parse(&reauthor(&image, &with_money(&s, 778)).unwrap()).unwrap();
    assert_eq!(again.money(), 778);
    assert_eq!(again.money_raw, 778 ^ 0x1122_3344);
}

#[test]
fn rewriting_a_block_unchanged_changes_nothing() {
    let mut image = image_with(1, 3, &[0xFF], &[3], 100);
    sign(&mut image, 1, 2000);
    for sectors in [&SAVEBLOCK1_SECTORS[..], &SAVEBLOCK2_SECTORS[..], &STORAGE_SECTORS[..]] {
        let block = read_block(&image, sectors).unwrap();
        assert_eq!(write_block(&image, sectors, &block).unwrap(), image);
    }
    let block1 = read_block(&image, &SAVEBLOCK1_SECTORS).unwrap();
    assert_eq!(write_block1(&image, &block1).unwrap(), image);
}

#[test]
fn the_tail_is_spliced_in_verbatim() {
    let mut image = image_with(0, 1, &[0xFF], &[3], 100);
    sign(&mut image, 0, 2000);
    let tail = vec![0x5Au8; 4 * SECTOR_SIZE];
    let out = with_tail(&image, &tail).expect("fits");
    assert_eq!(&out[..28 * SECTOR_SIZE], &image[..28 * SECTOR_SIZE]);
    assert_eq!(&out[28 * SECTOR_SIZE..], &tail[..]);
    assert_eq!(parse(&out), parse(&image));
    assert!(with_tail(&image, &tail[1..]).is_none());
    assert!(with_tail(&image[1..], &tail).is_none());
}

#[test]
fn only_two_blocks_may_be_reported_wholesale() {
    assert_eq!(reportable_block(0), Some(vec![0]));
    assert_eq!(reportable_block(1), Some(vec![5, 6, 7, 8, 9, 10, 11, 12, 13]));
    assert_eq!(reportable_block(2), None);
    assert_eq!(reportable_block(255), None);
}

#[test]
fn a_full_pocket_takes_no_new_item() {
    let mut image = image_with(0, 1, &[0xFF], &[3], 100);
    sign(&mut image, 0, 2000);
    let mut s = parse(&image).expect("readable");
    for item in 1..=16u16 {
        s.block1 = with_item(&s, 2, item, 1).expect("room");
    }
    assert!(with_item(&s, 2, 17, 1).is_none(), "the ball pocket has sixteen slots");
    assert!(with_item(&s, 2, 16, 5).is_some(), "one that is there can still change");
    assert_eq!(with_item(&s, 2, 17, 0), Some(s.block1.clone()), "removing nothing is nothing");
}
