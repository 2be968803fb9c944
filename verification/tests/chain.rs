use handel::bls_key_pair::BLSKeyPair;
use handel::blockchain::{
    check_stored_chain, missing_blocks, BlockchainError, PreviousSlots, StoredBlock, StoredChain,
    StoredHead,
};
use handel::contribution::{Contribution, LevelUpdate, SIGNATURE_SIZE};
use handel::identity::Identity;
use handel::update_message::{TendermintUpdate, MAX_REQUESTS, TIME_WINDOW_MILLIS, TYPE_ID};

fn good() -> StoredChain {
    StoredChain {
        genesis_on_main_chain: Some(true),
        head: Some(StoredHead { block_number: 100, state_root_matches: true }),
        macro_head: Some(StoredBlock::Macro { election: false }),
        election_head: Some(StoredBlock::Macro { election: true }),
        previous_election: Some(StoredBlock::Macro { election: true }),
    }
}

#[test]
fn a_consistent_chain_loads() {
    assert_eq!(check_stored_chain(&good()), Ok(PreviousSlots::FromPreviousElection));
    let first_epoch = StoredChain { previous_election: None, ..good() };
    assert_eq!(check_stored_chain(&first_epoch), Ok(PreviousSlots::Default));
}

#[test]
fn the_genesis_block_has_to_be_on_the_main_chain() {
    for genesis in [None, Some(false)] {
        let chain = StoredChain { genesis_on_main_chain: genesis, head: None, ..good() };
        assert_eq!(check_stored_chain(&chain), Err(BlockchainError::InvalidGenesisBlock));
    }
}

#[test]
fn missing_blocks_fail_the_loading() {
    let no_head = StoredChain { head: None, ..good() };
    assert_eq!(check_stored_chain(&no_head), Err(BlockchainError::FailedLoadingMainChain));
    let no_macro = StoredChain { macro_head: None, ..good() };
    assert_eq!(check_stored_chain(&no_macro), Err(BlockchainError::FailedLoadingMainChain));
    let no_election = StoredChain { election_head: None, ..good() };
    assert_eq!(check_stored_chain(&no_election), Err(BlockchainError::FailedLoadingMainChain));
}

#[test]
fn blocks_that_do_not_fit_are_inconsistent() {
    let cases = [
        StoredChain {
            head: Some(StoredHead { block_number: 100, state_root_matches: false }),
            macro_head: None,
            ..good()
        },
        StoredChain { macro_head: Some(StoredBlock::Micro), election_head: None, ..good() },
        StoredChain { election_head: Some(StoredBlock::Micro), ..good() },
        StoredChain { election_head: Some(StoredBlock::Macro { election: false }), ..good() },
        StoredChain { previous_election: Some(StoredBlock::Micro), ..good() },
        StoredChain { previous_election: Some(StoredBlock::Macro { election: false }), ..good() },
    ];
    for chain in cases {
        assert_eq!(check_stored_chain(&chain), Err(BlockchainError::InconsistentState));
    }
}

#[test]
fn the_transaction_cache_lacks_what_the_chain_has_not_reached() {
    assert_eq!(missing_blocks(120, 0), 119);
    assert_eq!(missing_blocks(120, 118), 1);
    assert_eq!(missing_blocks(120, 119), 0);
    assert_eq!(missing_blocks(120, 5000), 0);
    assert_eq!(missing_blocks(0, 0), 0);
    assert_eq!(missing_blocks(u32::MAX, u32::MAX - 1), 0);
}

#[test]
fn a_key_pair_serialises_with_a_zero_byte_after_it() {
    let pair = BLSKeyPair::from_native(vec![0xde, 0xad, 0x01]);
    assert_eq!(pair.native_ref(), &vec![0xde, 0xad, 0x01]);
    assert_eq!(pair.serialize(), vec![0xde, 0xad, 0x01, 0x00]);
    assert_eq!(pair.to_hex(), "dead0100");
    assert_eq!(BLSKeyPair::from_native(vec![]).to_hex(), "00");
}

#[test]
fn update_requests_are_limited() {
    assert_eq!(TYPE_ID, 124);
    assert_eq!(MAX_REQUESTS, 500);
    assert_eq!(TIME_WINDOW_MILLIS, 500);
    let update = TendermintUpdate {
        message: LevelUpdate::new(
            Contribution::new(Identity::single(1), [0u8; SIGNATURE_SIZE]),
            None,
            1,
            1,
        ),
        block_number: 42,
    };
    assert_eq!(update.block_number, 42);
    assert_eq!(update.message.level(), 1);
    assert_eq!(update.message.origin(), 1);
}
