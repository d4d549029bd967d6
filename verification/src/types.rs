//! Plain-value data model of the bridge query layer.

use vstd::prelude::*;

verus! {

/// A stake-accounting period; validator sets and key assignments are
/// versioned per epoch.
#[derive(Clone, Copy, Debug, PartialEq, Eq, Structural)]
pub struct Epoch(pub u64);

/// A committed block height.
#[derive(Clone, Copy, Debug, PartialEq, Eq, Structural)]
pub struct BlockHeight(pub u64);

/// 256-bit non-negative integer used for the bridge pool nonce, stored as
/// four 64-bit limbs, least significant limb first.
#[derive(Clone, Copy, Debug, PartialEq, Eq, Structural)]
pub struct Uint {
    pub limb0: u64,
    pub limb1: u64,
    pub limb2: u64,
    pub limb3: u64,
}

/// 32-byte content hash, the Merkle root type for the bridge pool sub-tree.
#[derive(Clone, Debug)]
pub struct KeccakHash {
    pub bytes: Vec<u8>,
}

impl View for KeccakHash {
    type V = Seq<u8>;

    open spec fn view(&self) -> Seq<u8> {
        self.bytes@
    }
}

impl KeccakHash {
    /// A well-formed hash holds exactly 32 bytes.
    pub open spec fn wf(&self) -> bool {
        self.bytes@.len() == 32
    }
}

/// 20-byte Ethereum account identifier.
#[derive(Clone, Debug)]
pub struct EthAddress {
    pub bytes: Vec<u8>,
}

impl View for EthAddress {
    type V = Seq<u8>;

    open spec fn view(&self) -> Seq<u8> {
        self.bytes@
    }
}

impl EthAddress {
    /// A well-formed Ethereum address holds exactly 20 bytes.
    pub open spec fn wf(&self) -> bool {
        self.bytes@.len() == 20
    }
}

/// Native-chain account identifier of a validator.
#[derive(Clone, Debug)]
pub struct Address {
    pub bytes: Vec<u8>,
}

impl View for Address {
    type V = Seq<u8>;

    open spec fn view(&self) -> Seq<u8> {
        self.bytes@
    }
}

/// A validator's two Ethereum-side identities: the operational bridge
/// signing key and the higher-security governance key. Both are required
/// together; the pair is only built when both lookups succeed.
#[derive(Clone, Debug)]
pub struct EthAddrBook {
    pub hot_key_addr: EthAddress,
    pub cold_key_addr: EthAddress,
}

impl View for EthAddrBook {
    type V = (Seq<u8>, Seq<u8>);

    open spec fn view(&self) -> (Seq<u8>, Seq<u8>) {
        (self.hot_key_addr@, self.cold_key_addr@)
    }
}

/// A rational share of total active stake. The constructor refuses a
/// numerator exceeding the denominator and a zero denominator, so the
/// value always lies in [0, 1].
#[derive(Clone, Copy, Debug, PartialEq, Eq, Structural)]
pub struct FractionalVotingPower {
    pub numer: u64,
    pub denom: u64,
}

/// 65-byte compact Ethereum-style signature.
#[derive(Clone, Debug)]
pub struct Signature {
    pub bytes: Vec<u8>,
}

impl View for Signature {
    type V = Seq<u8>;

    open spec fn view(&self) -> Seq<u8> {
        self.bytes@
    }
}

impl Signature {
    /// A well-formed signature holds exactly 65 bytes.
    pub open spec fn wf(&self) -> bool {
        self.bytes@.len() == 65
    }
}

/// A quorum-signed commitment to "this bridge pool root at this nonce":
/// the payload pair plus the validator signatures over it.
#[derive(Clone, Debug)]
pub struct EthereumProof {
    pub root: KeccakHash,
    pub nonce: Uint,
    pub signatures: Vec<Signature>,
}

impl EthereumProof {
    pub open spec fn wf(&self) -> bool {
        &&& self.root.wf()
        &&& self.signatures@.len() <= u32::MAX
        &&& forall|i: int|
            0 <= i < self.signatures@.len() ==> (#[trigger] self.signatures@[i]).wf()
    }
}

/// The canonical validator set argument structure consumed by cross-chain
/// proofs: hot-key addresses and fractional voting powers, positionally
/// aligned and deterministically ordered.
#[derive(Clone, Debug)]
pub struct ValidatorSetArgs {
    pub epoch: Epoch,
    pub validators: Vec<EthAddress>,
    pub voting_powers: Vec<FractionalVotingPower>,
}

/// Which block height a validator-set-update vote extension is being
/// checked for.
#[derive(Clone, Copy, Debug, PartialEq, Eq, Structural)]
pub enum SendValsetUpd {
    /// Check whether one may be sent at the current block height.
    Now,
    /// Check whether one may be sent at the previous block height.
    AtPrevHeight,
}

/// Whether the bridge was initialized at genesis or at a later epoch.
#[derive(Clone, Copy, Debug, PartialEq, Eq, Structural)]
pub enum EthBridgeEnabled {
    AtGenesis,
    /// The bridge is enabled from this epoch onwards.
    AtEpoch(Epoch),
}

/// The persisted activation state of the bridge.
#[derive(Clone, Copy, Debug, PartialEq, Eq, Structural)]
pub enum EthBridgeStatus {
    Disabled,
    Enabled(EthBridgeEnabled),
}

/// Which protocol variant the deployment runs: vote extensions are
/// gathered either for the current block height or for the previous one,
/// which changes when the scheduler demands a validator-set update.
#[derive(Clone, Copy, Debug, PartialEq, Eq, Structural)]
pub enum ProtocolVariant {
    /// Vote extensions are gathered for the current block height.
    CurrentHeightVotes,
    /// Vote extensions are gathered for the previous block height.
    PrevHeightVotes,
}

/// Unrecoverable invariant violations: storage or protocol-accounting
/// corruption. Callers treat these as fatal for the consensus step, but
/// tests can inspect the cause.
#[derive(Clone, Copy, Debug, PartialEq, Eq, Structural)]
pub enum FatalError {
    /// A storage record that must exist is absent.
    MissingRecord,
    /// A storage record that must decode failed to decode.
    CorruptRecord,
    /// A validator is active in the proof-of-stake set but has no
    /// registered Ethereum key pair.
    MissingEthereumKeys,
    /// A fractional voting power was requested with a numerator exceeding
    /// its denominator, or a zero denominator.
    InvalidVotingPower,
}

/// Byte-wise equality of two buffers.
pub fn bytes_eq(a: &Vec<u8>, b: &Vec<u8>) -> (r: bool)
    ensures
        r == (a@ == b@),
{
    if a.len() != b.len() {
        return false;
    }
    let mut i: usize = 0;
    while i < a.len()
        invariant
            i <= a.len(),
            a@.len() == b@.len(),
            forall|j: int| 0 <= j < i ==> a@[j] == b@[j],
        decreases a.len() - i,
    {
        if a[i] != b[i] {
            return false;
        }
        i = i + 1;
    }
    proof {
        assert(a@ =~= b@);
    }
    true
}

/// A fresh buffer holding the same bytes.
pub fn copy_bytes(v: &Vec<u8>) -> (r: Vec<u8>)
    ensures
        r@ == v@,
{
    let mut out: Vec<u8> = Vec::new();
    let mut i: usize = 0;
    while i < v.len()
        invariant
            i <= v.len(),
            out@ =~= v@.subrange(0, i as int),
        decreases v.len() - i,
    {
        out.push(v[i]);
        i = i + 1;
    }
    proof {
        assert(out@ =~= v@);
    }
    out
}

impl PartialEq for EthAddress {
    fn eq(&self, other: &EthAddress) -> (r: bool) {
        bytes_eq(&self.bytes, &other.bytes)
    }
}

impl vstd::std_specs::cmp::PartialEqSpecImpl for EthAddress {
    open spec fn obeys_eq_spec() -> bool {
        true
    }

    open spec fn eq_spec(&self, other: &EthAddress) -> bool {
        self.bytes@ == other.bytes@
    }
}

impl PartialEq for KeccakHash {
    fn eq(&self, other: &KeccakHash) -> (r: bool) {
        bytes_eq(&self.bytes, &other.bytes)
    }
}

impl vstd::std_specs::cmp::PartialEqSpecImpl for KeccakHash {
    open spec fn obeys_eq_spec() -> bool {
        true
    }

    open spec fn eq_spec(&self, other: &KeccakHash) -> bool {
        self.bytes@ == other.bytes@
    }
}

impl PartialEq for Address {
    fn eq(&self, other: &Address) -> (r: bool) {
        bytes_eq(&self.bytes, &other.bytes)
    }
}

impl vstd::std_specs::cmp::PartialEqSpecImpl for Address {
    open spec fn obeys_eq_spec() -> bool {
        true
    }

    open spec fn eq_spec(&self, other: &Address) -> bool {
        self.bytes@ == other.bytes@
    }
}

impl PartialEq for EthAddrBook {
    fn eq(&self, other: &EthAddrBook) -> (r: bool) {
        bytes_eq(&self.hot_key_addr.bytes, &other.hot_key_addr.bytes)
            && bytes_eq(&self.cold_key_addr.bytes, &other.cold_key_addr.bytes)
    }
}

impl vstd::std_specs::cmp::PartialEqSpecImpl for EthAddrBook {
    open spec fn obeys_eq_spec() -> bool {
        true
    }

    open spec fn eq_spec(&self, other: &EthAddrBook) -> bool {
        self.hot_key_addr.bytes@ == other.hot_key_addr.bytes@
            && self.cold_key_addr.bytes@ == other.cold_key_addr.bytes@
    }
}

impl FractionalVotingPower {
    /// Build the share `numer / denom` of total stake. Fails exactly when
    /// the denominator is zero or the numerator exceeds the denominator:
    /// either signals inconsistent proof-of-stake accounting.
    pub fn new(numer: u64, denom: u64) -> (r: Result<FractionalVotingPower, FatalError>)
        ensures
            r is Ok <==> (denom > 0 && numer <= denom),
            r is Ok ==> r == Ok::<FractionalVotingPower, FatalError>(
                FractionalVotingPower { numer, denom },
            ),
            r is Err ==> r == Err::<FractionalVotingPower, FatalError>(
                FatalError::InvalidVotingPower,
            ),
    {
        if denom > 0 && numer <= denom {
            Ok(FractionalVotingPower { numer, denom })
        } else {
            Err(FatalError::InvalidVotingPower)
        }
    }
}

} // verus!
