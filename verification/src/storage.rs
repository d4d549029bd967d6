//! The ledger snapshot and the bridge queries over it.
//!
//! `Storage` is a borrowed, read-only view of everything the query layer
//! consumes: the persisted byte records under the bridge's named keys, the
//! live bridge pool Merkle root, the historical per-height records, the
//! epoch/height index, and the proof-of-stake collaborator's data. Every
//! query is a pure function of this snapshot.

use vstd::prelude::*;

use crate::codec::{decode_proof, decode_status, decode_uint, sig_views, spec_decode_proof,
    spec_decode_status, spec_decode_uint};
use crate::types::{Address, BlockHeight, Epoch, EthAddress, EthBridgeEnabled, EthBridgeStatus,
    EthereumProof, FatalError, KeccakHash, ProtocolVariant, SendValsetUpd, Uint, copy_bytes};

verus! {

/// One validator of the active set at some epoch, with its bonded stake.
#[derive(Clone, Debug)]
pub struct WeightedValidator {
    pub address: Address,
    pub bonded_stake: u64,
}

/// One entry of a validator's epoched key-assignment history: the key is
/// in force from `from_epoch` onwards, until a later entry replaces it.
/// Histories are recorded in increasing `from_epoch` order.
#[derive(Clone, Debug)]
pub struct KeyAssignment {
    pub from_epoch: Epoch,
    pub key: EthAddress,
}

/// A validator's Ethereum key-assignment histories: the operational
/// bridge ("hot") key and the governance ("cold") key.
#[derive(Clone, Debug)]
pub struct ValidatorKeys {
    pub address: Address,
    pub hot_history: Vec<KeyAssignment>,
    pub cold_history: Vec<KeyAssignment>,
}

/// The proof-of-stake data for one epoch: the active validator set and
/// the total active voting power at that epoch.
#[derive(Clone, Debug)]
pub struct EpochStakes {
    pub epoch: Epoch,
    pub validators: Vec<WeightedValidator>,
    pub total_power: u64,
}

/// The proof-of-stake collaborator's data, one entry per known epoch
/// (epochs unique), plus the key directory.
#[derive(Clone, Debug)]
pub struct PosState {
    pub keys: Vec<ValidatorKeys>,
    pub epoch_stakes: Vec<EpochStakes>,
}

/// A read-only snapshot of the ledger state the bridge queries consume.
#[derive(Clone, Debug)]
pub struct Storage {
    /// Latest committed block height.
    pub last_height: BlockHeight,
    /// The current epoch.
    pub current_epoch: Epoch,
    /// The most recently completed epoch counter.
    pub last_epoch: Epoch,
    /// First block height of each recorded epoch, oldest first.
    pub epoch_first_heights: Vec<BlockHeight>,
    /// Which protocol variant this deployment runs.
    pub protocol_variant: ProtocolVariant,
    /// The record under the bridge's activation key, if present.
    pub active_record: Option<Vec<u8>>,
    /// The record under the bridge pool nonce key, if present.
    pub nonce_record: Option<Vec<u8>>,
    /// The record under the signed bridge pool root key, if present.
    pub signed_root_record: Option<Vec<u8>>,
    /// The live root of the bridge pool Merkle sub-tree.
    pub bridge_pool_root: KeccakHash,
    /// Nonce records as committed at each height, indexed by height.
    pub nonce_history: Vec<Option<Vec<u8>>>,
    /// Bridge pool sub-tree roots of the Merkle snapshots at each height,
    /// indexed by height.
    pub root_history: Vec<Option<KeccakHash>>,
    /// The proof-of-stake collaborator.
    pub pos: PosState,
}

/// Whether the bridge is active, as a function of the persisted status
/// and the current epoch: `Disabled` never is; `AtGenesis` always is;
/// `AtEpoch(e)` is active exactly from epoch `e` onwards.
pub open spec fn spec_bridge_active(status: EthBridgeStatus, current_epoch: Epoch) -> bool {
    match status {
        EthBridgeStatus::Disabled => false,
        EthBridgeStatus::Enabled(EthBridgeEnabled::AtGenesis) => true,
        EthBridgeStatus::Enabled(EthBridgeEnabled::AtEpoch(e)) => e.0 <= current_epoch.0,
    }
}

/// Law: a disabled bridge is inactive at every epoch.
pub proof fn lemma_disabled_never_active(current_epoch: Epoch)
    ensures
        !spec_bridge_active(EthBridgeStatus::Disabled, current_epoch),
{
}

/// Law: a bridge enabled at genesis is active at every epoch.
pub proof fn lemma_genesis_always_active(current_epoch: Epoch)
    ensures
        spec_bridge_active(
            EthBridgeStatus::Enabled(EthBridgeEnabled::AtGenesis),
            current_epoch,
        ),
{
}

/// Law: a bridge enabled at epoch `e` is active exactly at the epochs
/// greater than or equal to `e`.
pub proof fn lemma_at_epoch_activation(e: Epoch, current_epoch: Epoch)
    ensures
        spec_bridge_active(
            EthBridgeStatus::Enabled(EthBridgeEnabled::AtEpoch(e)),
            current_epoch,
        ) <==> current_epoch.0 >= e.0,
{
}

impl Storage {
    /// The persisted activation status, as read and decoded from the
    /// snapshot: absent and corrupt records are the two fatal cases.
    pub open spec fn spec_check_bridge_status(&self) -> Result<EthBridgeStatus, FatalError> {
        match self.active_record {
            Option::None => Err(FatalError::MissingRecord),
            Option::Some(b) => match spec_decode_status(b@) {
                Option::Some(s) => Ok(s),
                Option::None => Err(FatalError::CorruptRecord),
            },
        }
    }

    /// Check if the bridge is disabled, enabled, or scheduled to be
    /// enabled at a specified epoch. The record's presence is a storage
    /// invariant established at genesis, so its absence or corruption is
    /// a fatal invariant violation.
    pub fn check_bridge_status(&self) -> (r: Result<EthBridgeStatus, FatalError>)
        ensures
            r == self.spec_check_bridge_status(),
    {
        match &self.active_record {
            Option::None => Err(FatalError::MissingRecord),
            Option::Some(bytes) => match decode_status(bytes) {
                Option::Some(s) => Ok(s),
                Option::None => Err(FatalError::CorruptRecord),
            },
        }
    }

    /// Whether the bridge is currently active. Re-evaluated from the
    /// persisted status and the current epoch on every call.
    pub fn is_bridge_active(&self) -> (r: Result<bool, FatalError>)
        ensures
            match self.spec_check_bridge_status() {
                Ok(s) => r == Ok::<bool, FatalError>(spec_bridge_active(s, self.current_epoch)),
                Err(e) => r == Err::<bool, FatalError>(e),
            },
    {
        match self.check_bridge_status() {
            Err(e) => Err(e),
            Ok(status) => match status {
                EthBridgeStatus::Disabled => Ok(false),
                EthBridgeStatus::Enabled(EthBridgeEnabled::AtGenesis) => Ok(true),
                EthBridgeStatus::Enabled(EthBridgeEnabled::AtEpoch(e)) => Ok(
                    e.0 <= self.current_epoch.0,
                ),
            },
        }
    }

    /// The height recorded for the first block of the most recently
    /// completed epoch; height 1 while the epoch counter is still at its
    /// initial value.
    pub open spec fn spec_get_epoch_start_height(&self) -> Result<BlockHeight, FatalError> {
        if self.last_epoch.0 == 0 {
            Ok(BlockHeight(1))
        } else if self.epoch_first_heights@.len() > 0 {
            Ok(self.epoch_first_heights@.last())
        } else {
            Err(FatalError::MissingRecord)
        }
    }

    /// Fetch the first block height of the last epoch committed to
    /// storage.
    ///
    /// While the recorded epoch counter is still 0, the upstream recorder
    /// has stored height 0 where height 1 belongs, so this returns
    /// height 1 regardless of the recorded height data. The workaround is
    /// deliberate and must be kept until the recorder is fixed.
    pub fn get_epoch_start_height(&self) -> (r: Result<BlockHeight, FatalError>)
        ensures
            r == self.spec_get_epoch_start_height(),
            self.last_epoch.0 == 0 ==> r == Ok::<BlockHeight, FatalError>(BlockHeight(1)),
    {
        if self.last_epoch.0 == 0 {
            return Ok(BlockHeight(1));
        }
        let n = self.epoch_first_heights.len();
        if n > 0 {
            Ok(self.epoch_first_heights[n - 1])
        } else {
            Err(FatalError::MissingRecord)
        }
    }

    /// The latest persisted bridge pool nonce, decoded.
    pub open spec fn spec_get_bridge_pool_nonce(&self) -> Result<Uint, FatalError> {
        match self.nonce_record {
            Option::None => Err(FatalError::MissingRecord),
            Option::Some(b) => match spec_decode_uint(b@) {
                Option::Some(u) => Ok(u),
                Option::None => Err(FatalError::CorruptRecord),
            },
        }
    }

    /// Get the latest nonce of the bridge pool. The record must exist
    /// once the bridge does, so absence or corruption is fatal.
    pub fn get_bridge_pool_nonce(&self) -> (r: Result<Uint, FatalError>)
        ensures
            r == self.spec_get_bridge_pool_nonce(),
    {
        match &self.nonce_record {
            Option::None => Err(FatalError::MissingRecord),
            Option::Some(bytes) => match decode_uint(bytes) {
                Option::Some(u) => Ok(u),
                Option::None => Err(FatalError::CorruptRecord),
            },
        }
    }

    /// The nonce record as committed at height `h`, decoded.
    pub open spec fn spec_get_bridge_pool_nonce_at_height(&self, h: BlockHeight) -> Result<
        Uint,
        FatalError,
    > {
        if h.0 < self.nonce_history@.len() {
            match self.nonce_history@[h.0 as int] {
                Option::None => Err(FatalError::MissingRecord),
                Option::Some(b) => match spec_decode_uint(b@) {
                    Option::Some(u) => Ok(u),
                    Option::None => Err(FatalError::CorruptRecord),
                },
            }
        } else {
            Err(FatalError::MissingRecord)
        }
    }

    /// Get the bridge pool nonce as committed at height `h`, read through
    /// the historical accessor. Bounded by the latest committed height;
    /// every committed height must have a nonce once the bridge exists,
    /// so absence is fatal.
    pub fn get_bridge_pool_nonce_at_height(&self, h: BlockHeight) -> (r: Result<Uint, FatalError>)
        requires
            h.0 <= self.last_height.0,
        ensures
            r == self.spec_get_bridge_pool_nonce_at_height(h),
    {
        let n = self.nonce_history.len();
        if h.0 < n as u64 {
            match &self.nonce_history[h.0 as usize] {
                Option::None => Err(FatalError::MissingRecord),
                Option::Some(bytes) => match decode_uint(bytes) {
                    Option::Some(u) => Ok(u),
                    Option::None => Err(FatalError::CorruptRecord),
                },
            }
        } else {
            Err(FatalError::MissingRecord)
        }
    }

    /// Get the live root of the bridge pool Merkle sub-tree. This is
    /// derived from the live commitment structure, not a stored leaf, so
    /// it always exists.
    pub fn get_bridge_pool_root(&self) -> (r: KeccakHash)
        ensures
            r@ == self.bridge_pool_root@,
    {
        KeccakHash { bytes: copy_bytes(&self.bridge_pool_root.bytes) }
    }

    /// The bridge pool root of the Merkle snapshot at height `h`.
    pub open spec fn spec_get_bridge_pool_root_at_height(&self, h: BlockHeight) -> Result<
        Seq<u8>,
        FatalError,
    > {
        if h.0 < self.root_history@.len() {
            match self.root_history@[h.0 as int] {
                Option::None => Err(FatalError::MissingRecord),
                Option::Some(root) => Ok(root@),
            }
        } else {
            Err(FatalError::MissingRecord)
        }
    }

    /// Get the bridge pool root reconstructed from the historical Merkle
    /// snapshot at height `h`. Every committed height must have a
    /// snapshot, so absence is fatal.
    pub fn get_bridge_pool_root_at_height(&self, h: BlockHeight) -> (r: Result<
        KeccakHash,
        FatalError,
    >)
        requires
            h.0 <= self.last_height.0,
        ensures
            match (r, self.spec_get_bridge_pool_root_at_height(h)) {
                (Ok(root), Ok(bytes)) => root@ == bytes,
                (Err(e1), Err(e2)) => e1 == e2,
                _ => false,
            },
    {
        let n = self.root_history.len();
        if h.0 < n as u64 {
            match &self.root_history[h.0 as usize] {
                Option::None => Err(FatalError::MissingRecord),
                Option::Some(root) => Ok(KeccakHash { bytes: copy_bytes(&root.bytes) }),
            }
        } else {
            Err(FatalError::MissingRecord)
        }
    }

    /// Get the latest quorum-signed (root, nonce) commitment, or nothing
    /// if the bridge has not yet produced one; that absence is normal.
    /// A record that exists but does not decode is fatal.
    pub fn get_signed_bridge_pool_root(&self) -> (r: Result<Option<EthereumProof>, FatalError>)
        ensures
            match self.signed_root_record {
                Option::None => r == Ok::<Option<EthereumProof>, FatalError>(Option::None),
                Option::Some(b) => match spec_decode_proof(b@) {
                    Option::Some(v) => match r {
                        Ok(Option::Some(p)) => {
                            &&& p.wf()
                            &&& p.root@ == v.0
                            &&& p.nonce == v.1
                            &&& sig_views(p.signatures@) == v.2
                        },
                        _ => false,
                    },
                    Option::None => r == Err::<Option<EthereumProof>, FatalError>(
                        FatalError::CorruptRecord,
                    ),
                },
            },
    {
        match &self.signed_root_record {
            Option::None => Ok(Option::None),
            Option::Some(bytes) => match decode_proof(bytes) {
                Option::Some(p) => Ok(Option::Some(p)),
                Option::None => Err(FatalError::CorruptRecord),
            },
        }
    }

    /// The height at which the next block will be decided.
    pub open spec fn spec_decision_height(&self) -> int {
        self.last_height.0 + 1
    }

    /// The epoch start height the scheduler measures offsets from,
    /// including the initial-epoch workaround.
    pub open spec fn spec_epoch_start_height(&self) -> int {
        if self.last_epoch.0 == 0 {
            1
        } else {
            self.epoch_first_heights@.last().0 as int
        }
    }

    /// Whether the block being decided is exactly the second block of its
    /// epoch: offset 1 from the epoch boundary.
    pub open spec fn spec_is_second_block_of_epoch(&self) -> bool {
        self.spec_decision_height() == self.spec_epoch_start_height() + 1
    }

    /// What the scheduler must answer for each (variant, mode) pair:
    /// under the current-height variant, `Now` demands the update exactly
    /// at the second block of an epoch and `AtPrevHeight` is reserved and
    /// always false; under the previous-height variant, `AtPrevHeight` is
    /// always true (proposal preparation and verification always require
    /// the extension) and `Now` again picks the second block.
    pub open spec fn spec_must_send_valset_upd(&self, can_send: SendValsetUpd) -> bool {
        match (self.protocol_variant, can_send) {
            (ProtocolVariant::CurrentHeightVotes, SendValsetUpd::Now) => self
                .spec_is_second_block_of_epoch(),
            (ProtocolVariant::CurrentHeightVotes, SendValsetUpd::AtPrevHeight) => false,
            (ProtocolVariant::PrevHeightVotes, SendValsetUpd::Now) => self
                .spec_is_second_block_of_epoch(),
            (ProtocolVariant::PrevHeightVotes, SendValsetUpd::AtPrevHeight) => true,
        }
    }

    /// Determine whether a validator-set-update vote extension must be
    /// sent for the height named by `can_send`. The protocol fixes one
    /// canonical block per epoch — the second — at which every validator
    /// must emit the vote.
    ///
    /// Under the current-height variant, the `AtPrevHeight` answer is
    /// deliberately left at `false`: that path is reserved and not yet
    /// specified for this variant.
    pub fn must_send_valset_upd(&self, can_send: SendValsetUpd) -> (r: bool)
        requires
            self.last_epoch.0 == 0 || self.epoch_first_heights@.len() > 0,
            self.last_height.0 < u64::MAX,
        ensures
            r == self.spec_must_send_valset_upd(can_send),
    {
        let is_prev = match can_send {
            SendValsetUpd::AtPrevHeight => true,
            SendValsetUpd::Now => false,
        };
        let always = match self.protocol_variant {
            ProtocolVariant::CurrentHeightVotes => false,
            ProtocolVariant::PrevHeightVotes => true,
        };
        if is_prev {
            always
        } else {
            let start: u64 = if self.last_epoch.0 == 0 {
                1
            } else {
                self.epoch_first_heights[self.epoch_first_heights.len() - 1].0
            };
            let decision = self.last_height.0 + 1;
            decision > start && decision - start == 1
        }
    }
}

} // verus!
