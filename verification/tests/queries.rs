//! End-to-end tests of the bridge queries over in-memory snapshots.

use eth_bridge_queries::codec::{encode_proof, encode_status, encode_uint};
use eth_bridge_queries::storage::{EpochStakes, KeyAssignment, PosState, Storage, ValidatorKeys,
    WeightedValidator};
use eth_bridge_queries::types::{Address, BlockHeight, Epoch, EthAddrBook, EthAddress,
    EthBridgeEnabled, EthBridgeStatus, EthereumProof, FatalError, FractionalVotingPower,
    KeccakHash, ProtocolVariant, SendValsetUpd, Signature, Uint};

fn q_eth(b: u8) -> EthAddress {
    EthAddress { bytes: vec![b; 20] }
}

fn q_hash(b: u8) -> KeccakHash {
    KeccakHash { bytes: vec![b; 32] }
}

fn q_uint(x: u64) -> Uint {
    Uint { limb0: x, limb1: 0, limb2: 0, limb3: 0 }
}

fn q_addr(b: u8) -> Address {
    Address { bytes: vec![b; 4] }
}

fn q_keys(addr: u8, hot: u8, cold: u8) -> ValidatorKeys {
    ValidatorKeys {
        address: q_addr(addr),
        hot_history: vec![KeyAssignment { from_epoch: Epoch(0), key: q_eth(hot) }],
        cold_history: vec![KeyAssignment { from_epoch: Epoch(0), key: q_eth(cold) }],
    }
}

fn q_base() -> Storage {
    Storage {
        last_height: BlockHeight(1),
        current_epoch: Epoch(0),
        last_epoch: Epoch(0),
        epoch_first_heights: vec![BlockHeight(0)],
        protocol_variant: ProtocolVariant::CurrentHeightVotes,
        active_record: None,
        nonce_record: None,
        signed_root_record: None,
        bridge_pool_root: q_hash(0),
        nonce_history: vec![],
        root_history: vec![],
        pos: PosState { keys: vec![], epoch_stakes: vec![] },
    }
}

#[test]
fn bridge_disabled_end_to_end() {
    let mut s = q_base();
    s.active_record = Some(encode_status(&EthBridgeStatus::Disabled));
    assert_eq!(s.check_bridge_status(), Ok(EthBridgeStatus::Disabled));
    assert_eq!(s.is_bridge_active(), Ok(false));
    s.current_epoch = Epoch(7000);
    assert_eq!(s.is_bridge_active(), Ok(false));
}

#[test]
fn bridge_genesis_always_active() {
    let mut s = q_base();
    s.active_record = Some(encode_status(&EthBridgeStatus::Enabled(
        EthBridgeEnabled::AtGenesis,
    )));
    assert_eq!(s.is_bridge_active(), Ok(true));
    s.current_epoch = Epoch(1_000_000);
    assert_eq!(s.is_bridge_active(), Ok(true));
}

#[test]
fn bridge_enabled_at_epoch_boundary() {
    let mut s = q_base();
    s.active_record = Some(encode_status(&EthBridgeStatus::Enabled(
        EthBridgeEnabled::AtEpoch(Epoch(5)),
    )));
    s.current_epoch = Epoch(4);
    assert_eq!(s.is_bridge_active(), Ok(false));
    s.current_epoch = Epoch(5);
    assert_eq!(s.is_bridge_active(), Ok(true));
    s.current_epoch = Epoch(6);
    assert_eq!(s.is_bridge_active(), Ok(true));
}

#[test]
fn missing_active_record_is_fatal() {
    let s = q_base();
    assert_eq!(s.check_bridge_status(), Err(FatalError::MissingRecord));
    assert_eq!(s.is_bridge_active(), Err(FatalError::MissingRecord));
}

#[test]
fn corrupt_active_record_is_fatal() {
    let mut s = q_base();
    s.active_record = Some(vec![9, 9, 9]);
    assert_eq!(s.check_bridge_status(), Err(FatalError::CorruptRecord));
    assert_eq!(s.is_bridge_active(), Err(FatalError::CorruptRecord));
}

#[test]
fn epoch_start_height_initial_counter() {
    let mut s = q_base();
    s.last_epoch = Epoch(0);
    s.epoch_first_heights = vec![BlockHeight(0), BlockHeight(42)];
    assert_eq!(s.get_epoch_start_height(), Ok(BlockHeight(1)));
}

#[test]
fn epoch_start_height_later_epoch() {
    let mut s = q_base();
    s.last_epoch = Epoch(3);
    s.epoch_first_heights = vec![BlockHeight(0), BlockHeight(10), BlockHeight(20)];
    assert_eq!(s.get_epoch_start_height(), Ok(BlockHeight(20)));
}

#[test]
fn bridge_pool_nonce_queries() {
    let mut s = q_base();
    assert_eq!(s.get_bridge_pool_nonce(), Err(FatalError::MissingRecord));
    s.nonce_record = Some(encode_uint(&q_uint(7)));
    assert_eq!(s.get_bridge_pool_nonce(), Ok(q_uint(7)));
    s.nonce_record = Some(vec![1; 31]);
    assert_eq!(s.get_bridge_pool_nonce(), Err(FatalError::CorruptRecord));
}

#[test]
fn bridge_pool_nonce_at_height() {
    let mut s = q_base();
    s.last_height = BlockHeight(2);
    s.nonce_history = vec![
        Some(encode_uint(&q_uint(1))),
        Some(encode_uint(&q_uint(2))),
        None,
    ];
    assert_eq!(s.get_bridge_pool_nonce_at_height(BlockHeight(0)), Ok(q_uint(1)));
    assert_eq!(s.get_bridge_pool_nonce_at_height(BlockHeight(1)), Ok(q_uint(2)));
    assert_eq!(
        s.get_bridge_pool_nonce_at_height(BlockHeight(2)),
        Err(FatalError::MissingRecord)
    );
}

#[test]
fn bridge_pool_roots() {
    let mut s = q_base();
    s.bridge_pool_root = q_hash(0xAB);
    assert_eq!(s.get_bridge_pool_root(), q_hash(0xAB));
    s.last_height = BlockHeight(1);
    s.root_history = vec![Some(q_hash(1)), None];
    assert_eq!(s.get_bridge_pool_root_at_height(BlockHeight(0)), Ok(q_hash(1)));
    assert_eq!(
        s.get_bridge_pool_root_at_height(BlockHeight(1)),
        Err(FatalError::MissingRecord)
    );
}

#[test]
fn signed_bridge_pool_root_absent_is_normal() {
    let s = q_base();
    assert!(matches!(s.get_signed_bridge_pool_root(), Ok(None)));
}

#[test]
fn signed_bridge_pool_root_round_trip() {
    let mut s = q_base();
    let proof = EthereumProof {
        root: q_hash(0xCD),
        nonce: q_uint(9),
        signatures: vec![
            Signature { bytes: vec![3; 65] },
            Signature { bytes: vec![4; 65] },
        ],
    };
    s.signed_root_record = Some(encode_proof(&proof));
    match s.get_signed_bridge_pool_root() {
        Ok(Some(p)) => {
            assert_eq!(p.root, q_hash(0xCD));
            assert_eq!(p.nonce, q_uint(9));
            assert_eq!(p.signatures.len(), 2);
            assert_eq!(p.signatures[0].bytes, vec![3; 65]);
            assert_eq!(p.signatures[1].bytes, vec![4; 65]);
        }
        other => panic!("unexpected result: {:?}", other),
    }
}

#[test]
fn signed_bridge_pool_root_corrupt_is_fatal() {
    let mut s = q_base();
    s.signed_root_record = Some(vec![0; 70]);
    assert!(matches!(
        s.get_signed_bridge_pool_root(),
        Err(FatalError::CorruptRecord)
    ));
}

#[test]
fn valset_upd_second_block_of_epoch() {
    let mut s = q_base();
    s.protocol_variant = ProtocolVariant::CurrentHeightVotes;
    s.last_epoch = Epoch(1);
    s.epoch_first_heights = vec![BlockHeight(0), BlockHeight(10)];
    // deciding height 11 = second block of the epoch that starts at 10
    s.last_height = BlockHeight(10);
    assert!(s.must_send_valset_upd(SendValsetUpd::Now));
    assert!(!s.must_send_valset_upd(SendValsetUpd::AtPrevHeight));
    // first block of the epoch
    s.last_height = BlockHeight(9);
    assert!(!s.must_send_valset_upd(SendValsetUpd::Now));
    assert!(!s.must_send_valset_upd(SendValsetUpd::AtPrevHeight));
    // third block of the epoch
    s.last_height = BlockHeight(11);
    assert!(!s.must_send_valset_upd(SendValsetUpd::Now));
    assert!(!s.must_send_valset_upd(SendValsetUpd::AtPrevHeight));
}

#[test]
fn valset_upd_initial_epoch_workaround() {
    let mut s = q_base();
    s.protocol_variant = ProtocolVariant::CurrentHeightVotes;
    s.last_epoch = Epoch(0);
    // epoch start is taken as height 1, so the second block is height 2,
    // decided when the last committed height is 1
    s.last_height = BlockHeight(1);
    assert!(s.must_send_valset_upd(SendValsetUpd::Now));
    s.last_height = BlockHeight(2);
    assert!(!s.must_send_valset_upd(SendValsetUpd::Now));
}

#[test]
fn valset_upd_prev_height_variant() {
    let mut s = q_base();
    s.protocol_variant = ProtocolVariant::PrevHeightVotes;
    s.last_epoch = Epoch(1);
    s.epoch_first_heights = vec![BlockHeight(0), BlockHeight(10)];
    s.last_height = BlockHeight(5);
    assert!(s.must_send_valset_upd(SendValsetUpd::AtPrevHeight));
    assert!(!s.must_send_valset_upd(SendValsetUpd::Now));
    s.last_height = BlockHeight(10);
    assert!(s.must_send_valset_upd(SendValsetUpd::Now));
}

#[test]
fn key_directory_lookup_and_rotation() {
    let mut s = q_base();
    s.current_epoch = Epoch(2);
    s.pos.keys = vec![ValidatorKeys {
        address: q_addr(1),
        hot_history: vec![
            KeyAssignment { from_epoch: Epoch(1), key: q_eth(0xA0) },
            KeyAssignment { from_epoch: Epoch(3), key: q_eth(0xB0) },
        ],
        cold_history: vec![KeyAssignment { from_epoch: Epoch(1), key: q_eth(0xC0) }],
    }];
    // before any assignment was in force
    assert_eq!(
        s.get_ethbridge_from_namada_addr(&q_addr(1), Some(Epoch(0))),
        None
    );
    // the first assignment, picked up via the default (current) epoch
    assert_eq!(
        s.get_ethbridge_from_namada_addr(&q_addr(1), None),
        Some(q_eth(0xA0))
    );
    // the rotated assignment from its epoch onwards
    assert_eq!(
        s.get_ethbridge_from_namada_addr(&q_addr(1), Some(Epoch(3))),
        Some(q_eth(0xB0))
    );
    assert_eq!(
        s.get_ethbridge_from_namada_addr(&q_addr(1), Some(Epoch(9))),
        Some(q_eth(0xB0))
    );
    assert_eq!(
        s.get_ethgov_from_namada_addr(&q_addr(1), Some(Epoch(2))),
        Some(q_eth(0xC0))
    );
    // an unknown validator has no keys
    assert_eq!(s.get_ethbridge_from_namada_addr(&q_addr(9), None), None);
}

#[test]
fn addr_book_needs_both_keys() {
    let mut s = q_base();
    s.pos.keys = vec![ValidatorKeys {
        address: q_addr(1),
        hot_history: vec![KeyAssignment { from_epoch: Epoch(0), key: q_eth(0xA0) }],
        cold_history: vec![],
    }];
    assert_eq!(s.get_eth_addr_book(&q_addr(1), None), None);
    s.pos.keys[0].cold_history =
        vec![KeyAssignment { from_epoch: Epoch(0), key: q_eth(0xC0) }];
    assert_eq!(
        s.get_eth_addr_book(&q_addr(1), None),
        Some(EthAddrBook { hot_key_addr: q_eth(0xA0), cold_key_addr: q_eth(0xC0) })
    );
}

fn q_three_validator_storage() -> Storage {
    let mut s = q_base();
    s.current_epoch = Epoch(1);
    s.pos.keys = vec![q_keys(1, 0xA1, 0xB1), q_keys(2, 0xA2, 0xB2), q_keys(3, 0xA3, 0xB3)];
    s.pos.epoch_stakes = vec![EpochStakes {
        epoch: Epoch(1),
        validators: vec![
            WeightedValidator { address: q_addr(2), bonded_stake: 30 },
            WeightedValidator { address: q_addr(1), bonded_stake: 50 },
            WeightedValidator { address: q_addr(3), bonded_stake: 20 },
        ],
        total_power: 100,
    }];
    s
}

#[test]
fn active_eth_addresses_enumerates_in_order() {
    let s = q_three_validator_storage();
    let out = s.get_active_eth_addresses(None).unwrap();
    assert_eq!(out.len(), 3);
    assert_eq!(out[0].0.hot_key_addr, q_eth(0xA2));
    assert_eq!(out[0].1, q_addr(2));
    assert_eq!(out[0].2, 30);
    assert_eq!(out[1].0.hot_key_addr, q_eth(0xA1));
    assert_eq!(out[2].0.cold_key_addr, q_eth(0xB3));
}

#[test]
fn active_eth_addresses_missing_keys_is_fatal() {
    let mut s = q_three_validator_storage();
    s.pos.keys.remove(1);
    assert_eq!(
        s.get_active_eth_addresses(None),
        Err(FatalError::MissingEthereumKeys)
    );
    assert!(matches!(
        s.get_validator_set_args(None),
        Err(FatalError::MissingEthereumKeys)
    ));
}

#[test]
fn validator_set_args_three_validators() {
    let s = q_three_validator_storage();
    let args = s.get_validator_set_args(None).unwrap();
    assert_eq!(args.epoch, Epoch(1));
    // stake descending: 50, 30, 20
    assert_eq!(
        args.validators,
        vec![q_eth(0xA1), q_eth(0xA2), q_eth(0xA3)]
    );
    assert_eq!(
        args.voting_powers,
        vec![
            FractionalVotingPower { numer: 50, denom: 100 },
            FractionalVotingPower { numer: 30, denom: 100 },
            FractionalVotingPower { numer: 20, denom: 100 },
        ]
    );
    // the shares sum to exactly one: numerators add up to the denominator
    let total: u64 = args.voting_powers.iter().map(|p| p.numer).sum();
    assert_eq!(total, 100);
}

#[test]
fn validator_set_args_unknown_epoch() {
    let s = q_three_validator_storage();
    assert!(matches!(
        s.get_validator_set_args(Some(Epoch(9))),
        Err(FatalError::MissingRecord)
    ));
}

#[test]
fn validator_set_args_inconsistent_stake_is_fatal() {
    let mut s = q_three_validator_storage();
    s.pos.epoch_stakes[0].total_power = 49;
    assert!(matches!(
        s.get_validator_set_args(None),
        Err(FatalError::InvalidVotingPower)
    ));
    s.pos.epoch_stakes[0].total_power = 0;
    assert!(matches!(
        s.get_validator_set_args(None),
        Err(FatalError::InvalidVotingPower)
    ));
}

#[test]
fn fractional_power_constructor_bounds() {
    assert_eq!(
        FractionalVotingPower::new(1, 2),
        Ok(FractionalVotingPower { numer: 1, denom: 2 })
    );
    assert_eq!(
        FractionalVotingPower::new(2, 2),
        Ok(FractionalVotingPower { numer: 2, denom: 2 })
    );
    assert_eq!(
        FractionalVotingPower::new(3, 2),
        Err(FatalError::InvalidVotingPower)
    );
    assert_eq!(
        FractionalVotingPower::new(1, 0),
        Err(FatalError::InvalidVotingPower)
    );
}
