//! Round-trip and layout tests of the record codec.

use eth_bridge_queries::codec::{decode_proof, decode_status, decode_uint, encode_proof,
    encode_status, encode_uint};
use eth_bridge_queries::types::{Epoch, EthAddrBook, EthAddress, EthBridgeEnabled,
    EthBridgeStatus, EthereumProof, FractionalVotingPower, KeccakHash, Signature, Uint};
use eth_bridge_queries::validator_set::validator_set_args_from;

fn c_uint(a: u64, b: u64, c: u64, d: u64) -> Uint {
    Uint { limb0: a, limb1: b, limb2: c, limb3: d }
}

#[test]
fn nonce_encoding_round_trip() {
    let values = [
        c_uint(0, 0, 0, 0),
        c_uint(7, 0, 0, 0),
        c_uint(0x0102030405060708, 9, u64::MAX, 1),
        c_uint(u64::MAX, u64::MAX, u64::MAX, u64::MAX),
    ];
    for u in values.iter() {
        let bytes = encode_uint(u);
        assert_eq!(bytes.len(), 32);
        assert_eq!(decode_uint(&bytes), Some(*u));
    }
}

#[test]
fn nonce_encoding_layout_is_little_endian() {
    let bytes = encode_uint(&c_uint(0x0102, 0, 0, 0));
    let mut expected = vec![0x02u8, 0x01];
    expected.extend(std::iter::repeat(0u8).take(30));
    assert_eq!(bytes, expected);
}

#[test]
fn status_encoding_round_trip() {
    let values = [
        EthBridgeStatus::Disabled,
        EthBridgeStatus::Enabled(EthBridgeEnabled::AtGenesis),
        EthBridgeStatus::Enabled(EthBridgeEnabled::AtEpoch(Epoch(0))),
        EthBridgeStatus::Enabled(EthBridgeEnabled::AtEpoch(Epoch(5))),
        EthBridgeStatus::Enabled(EthBridgeEnabled::AtEpoch(Epoch(u64::MAX))),
    ];
    for s in values.iter() {
        let bytes = encode_status(s);
        assert_eq!(decode_status(&bytes), Some(*s));
    }
}

#[test]
fn status_encoding_layout() {
    assert_eq!(encode_status(&EthBridgeStatus::Disabled), vec![0u8]);
    assert_eq!(
        encode_status(&EthBridgeStatus::Enabled(EthBridgeEnabled::AtGenesis)),
        vec![1u8, 0u8]
    );
    assert_eq!(
        encode_status(&EthBridgeStatus::Enabled(EthBridgeEnabled::AtEpoch(Epoch(5)))),
        vec![1u8, 1u8, 5, 0, 0, 0, 0, 0, 0, 0]
    );
}

#[test]
fn status_decode_rejects_garbage() {
    assert_eq!(decode_status(&vec![]), None);
    assert_eq!(decode_status(&vec![2]), None);
    assert_eq!(decode_status(&vec![0, 0]), None);
    assert_eq!(decode_status(&vec![1, 1, 5]), None);
    assert_eq!(decode_status(&vec![1, 2, 5, 0, 0, 0, 0, 0, 0, 0]), None);
}

#[test]
fn proof_encoding_round_trip_keeps_root() {
    let proof = EthereumProof {
        root: KeccakHash { bytes: (0u8..32).collect() },
        nonce: c_uint(3, 0, 0, 0),
        signatures: vec![Signature { bytes: vec![7; 65] }],
    };
    let bytes = encode_proof(&proof);
    let back = decode_proof(&bytes).unwrap();
    assert_eq!(back.root, proof.root);
    assert_eq!(back.nonce, proof.nonce);
    assert_eq!(back.signatures.len(), 1);
    assert_eq!(back.signatures[0].bytes, vec![7; 65]);
}

#[test]
fn proof_decode_rejects_truncated_records() {
    assert!(decode_proof(&vec![0; 67]).is_none());
    // count says one signature but none follows
    let proof = EthereumProof {
        root: KeccakHash { bytes: vec![0; 32] },
        nonce: c_uint(0, 0, 0, 0),
        signatures: vec![Signature { bytes: vec![7; 65] }],
    };
    let mut bytes = encode_proof(&proof);
    bytes.truncate(70);
    assert!(decode_proof(&bytes).is_none());
}

fn c_eth(b: u8) -> EthAddress {
    EthAddress { bytes: vec![b; 20] }
}

fn c_book(hot: u8, cold: u8) -> EthAddrBook {
    EthAddrBook { hot_key_addr: c_eth(hot), cold_key_addr: c_eth(cold) }
}

#[test]
fn validator_set_args_order_independent() {
    let entries1 = vec![(c_book(0xA1, 0xB1), 50u64), (c_book(0xA2, 0xB2), 30u64), (
        c_book(0xA3, 0xB3),
        20u64,
    )];
    let entries2 = vec![(c_book(0xA3, 0xB3), 20u64), (c_book(0xA1, 0xB1), 50u64), (
        c_book(0xA2, 0xB2),
        30u64,
    )];
    let args1 = validator_set_args_from(Epoch(1), entries1, 100).unwrap();
    let args2 = validator_set_args_from(Epoch(1), entries2, 100).unwrap();
    assert_eq!(args1.epoch, args2.epoch);
    assert_eq!(args1.validators, args2.validators);
    assert_eq!(args1.voting_powers, args2.voting_powers);
}

#[test]
fn validator_set_args_tie_break_on_address() {
    // equal stakes: ordered by hot-key bytes ascending
    let entries = vec![(c_book(0xA9, 0xB1), 10u64), (c_book(0xA1, 0xB2), 10u64)];
    let args = validator_set_args_from(Epoch(0), entries, 20).unwrap();
    assert_eq!(args.validators, vec![c_eth(0xA1), c_eth(0xA9)]);
    assert_eq!(
        args.voting_powers,
        vec![
            FractionalVotingPower { numer: 10, denom: 20 },
            FractionalVotingPower { numer: 10, denom: 20 },
        ]
    );
}
