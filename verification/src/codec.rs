//! Byte encoding of the persisted bridge records.
//!
//! The storage collaborator persists the activation status, the bridge pool
//! nonce and the quorum-signed (root, nonce) commitment as byte records.
//! The layout is little-endian throughout: a tagged union is one tag byte
//! per layer followed by the payload, a 256-bit integer is its four 64-bit
//! limbs least significant first, a hash is its 32 raw bytes, and a list is
//! a 32-bit element count followed by the elements.

use vstd::prelude::*;

use crate::types::{EthBridgeEnabled, EthBridgeStatus, Epoch, EthereumProof, KeccakHash,
    Signature, Uint, copy_bytes};

verus! {

/// The eight little-endian bytes of a 64-bit integer.
pub open spec fn u64_le_bytes(x: u64) -> Seq<u8> {
    seq![
        (x & 0xff) as u8,
        ((x >> 8) & 0xff) as u8,
        ((x >> 16) & 0xff) as u8,
        ((x >> 24) & 0xff) as u8,
        ((x >> 32) & 0xff) as u8,
        ((x >> 40) & 0xff) as u8,
        ((x >> 48) & 0xff) as u8,
        ((x >> 56) & 0xff) as u8,
    ]
}

/// The 64-bit integer read from eight little-endian bytes.
pub open spec fn u64_from_le(b: Seq<u8>) -> u64
    recommends
        b.len() == 8,
{
    (b[0] as u64) | ((b[1] as u64) << 8) | ((b[2] as u64) << 16) | ((b[3] as u64) << 24)
        | ((b[4] as u64) << 32) | ((b[5] as u64) << 40) | ((b[6] as u64) << 48)
        | ((b[7] as u64) << 56)
}

/// Reading back the little-endian bytes of an integer yields the integer.
pub proof fn lemma_u64_le_round_trip(x: u64)
    ensures
        u64_from_le(u64_le_bytes(x)) == x,
{
    assert((((x & 0xff) as u8) as u64) | ((((x >> 8) & 0xff) as u8) as u64) << 8
        | ((((x >> 16) & 0xff) as u8) as u64) << 16 | ((((x >> 24) & 0xff) as u8) as u64) << 24
        | ((((x >> 32) & 0xff) as u8) as u64) << 32 | ((((x >> 40) & 0xff) as u8) as u64) << 40
        | ((((x >> 48) & 0xff) as u8) as u64) << 48 | ((((x >> 56) & 0xff) as u8) as u64) << 56
        == x) by (bit_vector);
}

/// The four little-endian bytes of a 32-bit integer.
pub open spec fn u32_le_bytes(x: u32) -> Seq<u8> {
    seq![
        (x & 0xff) as u8,
        ((x >> 8) & 0xff) as u8,
        ((x >> 16) & 0xff) as u8,
        ((x >> 24) & 0xff) as u8,
    ]
}

/// The 32-bit integer read from four little-endian bytes.
pub open spec fn u32_from_le(b: Seq<u8>) -> u32
    recommends
        b.len() == 4,
{
    (b[0] as u32) | ((b[1] as u32) << 8) | ((b[2] as u32) << 16) | ((b[3] as u32) << 24)
}

/// Reading back the little-endian bytes of a 32-bit integer yields it.
pub proof fn lemma_u32_le_round_trip(x: u32)
    ensures
        u32_from_le(u32_le_bytes(x)) == x,
{
    assert((((x & 0xff) as u8) as u32) | ((((x >> 8) & 0xff) as u8) as u32) << 8
        | ((((x >> 16) & 0xff) as u8) as u32) << 16 | ((((x >> 24) & 0xff) as u8) as u32) << 24
        == x) by (bit_vector);
}

/// Encoding of the bridge pool nonce: the four limbs, least significant
/// first, 32 bytes in all.
pub open spec fn spec_encode_uint(u: Uint) -> Seq<u8> {
    u64_le_bytes(u.limb0) + u64_le_bytes(u.limb1) + u64_le_bytes(u.limb2) + u64_le_bytes(u.limb3)
}

/// Total decoder for nonce records: exactly 32 bytes, or nothing.
pub open spec fn spec_decode_uint(b: Seq<u8>) -> Option<Uint> {
    if b.len() == 32 {
        Some(Uint {
            limb0: u64_from_le(b.subrange(0, 8)),
            limb1: u64_from_le(b.subrange(8, 16)),
            limb2: u64_from_le(b.subrange(16, 24)),
            limb3: u64_from_le(b.subrange(24, 32)),
        })
    } else {
        None
    }
}

/// Encoding of the activation status: one tag byte per enum layer, then
/// the epoch for the epoch-gated case.
pub open spec fn spec_encode_status(s: EthBridgeStatus) -> Seq<u8> {
    match s {
        EthBridgeStatus::Disabled => seq![0u8],
        EthBridgeStatus::Enabled(EthBridgeEnabled::AtGenesis) => seq![1u8, 0u8],
        EthBridgeStatus::Enabled(EthBridgeEnabled::AtEpoch(e)) => seq![1u8, 1u8]
            + u64_le_bytes(e.0),
    }
}

/// Total decoder for activation records.
pub open spec fn spec_decode_status(b: Seq<u8>) -> Option<EthBridgeStatus> {
    if b.len() == 1 && b[0] == 0 {
        Some(EthBridgeStatus::Disabled)
    } else if b.len() == 2 && b[0] == 1 && b[1] == 0 {
        Some(EthBridgeStatus::Enabled(EthBridgeEnabled::AtGenesis))
    } else if b.len() == 10 && b[0] == 1 && b[1] == 1 {
        Some(EthBridgeStatus::Enabled(EthBridgeEnabled::AtEpoch(Epoch(u64_from_le(
            b.subrange(2, 10),
        )))))
    } else {
        None
    }
}

/// Concatenation of a list of byte strings.
pub open spec fn concat_bytes(s: Seq<Seq<u8>>) -> Seq<u8>
    decreases s.len(),
{
    if s.len() == 0 {
        Seq::empty()
    } else {
        s[0] + concat_bytes(s.drop_first())
    }
}

/// Encoding of a signed (root, nonce) commitment: the 32 root bytes, the
/// 32 nonce bytes, the signature count as 32-bit little-endian, then the
/// 65-byte signatures in order.
pub open spec fn spec_encode_proof(root: Seq<u8>, nonce: Uint, sigs: Seq<Seq<u8>>) -> Seq<u8>
    recommends
        root.len() == 32,
        sigs.len() <= u32::MAX,
{
    root + spec_encode_uint(nonce) + u32_le_bytes(sigs.len() as u32) + concat_bytes(sigs)
}

/// Total decoder for signed-root records, at the level of byte views:
/// the root bytes, the nonce, and the signature byte strings.
pub open spec fn spec_decode_proof(b: Seq<u8>) -> Option<(Seq<u8>, Uint, Seq<Seq<u8>>)> {
    if b.len() >= 68 {
        let root = b.subrange(0, 32);
        let nonce = spec_decode_uint(b.subrange(32, 64))->Some_0;
        let n = u32_from_le(b.subrange(64, 68)) as int;
        if b.len() == 68 + 65 * n {
            Some((root, nonce, Seq::new(n as nat, |i: int| b.subrange(68 + 65 * i, 68 + 65 * i + 65))))
        } else {
            None
        }
    } else {
        None
    }
}

/// Decoding any encoded nonce yields the nonce back.
pub proof fn lemma_uint_round_trip(u: Uint)
    ensures
        spec_decode_uint(spec_encode_uint(u)) == Some(u),
{
    let b = spec_encode_uint(u);
    assert(b.subrange(0, 8) =~= u64_le_bytes(u.limb0));
    assert(b.subrange(8, 16) =~= u64_le_bytes(u.limb1));
    assert(b.subrange(16, 24) =~= u64_le_bytes(u.limb2));
    assert(b.subrange(24, 32) =~= u64_le_bytes(u.limb3));
    lemma_u64_le_round_trip(u.limb0);
    lemma_u64_le_round_trip(u.limb1);
    lemma_u64_le_round_trip(u.limb2);
    lemma_u64_le_round_trip(u.limb3);
}

/// Decoding any encoded activation status yields the status back.
pub proof fn lemma_status_round_trip(s: EthBridgeStatus)
    ensures
        spec_decode_status(spec_encode_status(s)) == Some(s),
{
    match s {
        EthBridgeStatus::Disabled => {}
        EthBridgeStatus::Enabled(EthBridgeEnabled::AtGenesis) => {}
        EthBridgeStatus::Enabled(EthBridgeEnabled::AtEpoch(e)) => {
            let b = spec_encode_status(s);
            assert(b.subrange(2, 10) =~= u64_le_bytes(e.0));
            lemma_u64_le_round_trip(e.0);
        }
    }
}

/// The concatenation of `n` signatures of 65 bytes holds `65 * n` bytes.
proof fn lemma_concat_sig_len(sigs: Seq<Seq<u8>>)
    requires
        forall|i: int| 0 <= i < sigs.len() ==> (#[trigger] sigs[i]).len() == 65,
    ensures
        concat_bytes(sigs).len() == 65 * sigs.len(),
    decreases sigs.len(),
{
    if sigs.len() > 0 {
        lemma_concat_sig_len(sigs.drop_first());
    }
}

/// Each signature sits at its fixed offset in the concatenation.
proof fn lemma_concat_sig_index(sigs: Seq<Seq<u8>>, i: int)
    requires
        forall|k: int| 0 <= k < sigs.len() ==> (#[trigger] sigs[k]).len() == 65,
        0 <= i < sigs.len(),
    ensures
        concat_bytes(sigs).subrange(65 * i, 65 * i + 65) == sigs[i],
    decreases i,
{
    lemma_concat_sig_len(sigs);
    let rest = sigs.drop_first();
    lemma_concat_sig_len(rest);
    if i == 0 {
        assert(concat_bytes(sigs).subrange(0, 65) =~= sigs[0]);
    } else {
        lemma_concat_sig_index(rest, i - 1);
        assert(concat_bytes(sigs).subrange(65 * i, 65 * i + 65) =~= concat_bytes(rest).subrange(
            65 * (i - 1),
            65 * (i - 1) + 65,
        ));
    }
}

/// Decoding any encoded signed-root record yields the record back.
pub proof fn lemma_proof_round_trip(root: Seq<u8>, nonce: Uint, sigs: Seq<Seq<u8>>)
    requires
        root.len() == 32,
        sigs.len() <= u32::MAX,
        forall|i: int| 0 <= i < sigs.len() ==> (#[trigger] sigs[i]).len() == 65,
    ensures
        spec_decode_proof(spec_encode_proof(root, nonce, sigs)) == Some((root, nonce, sigs)),
{
    let b = spec_encode_proof(root, nonce, sigs);
    let n = sigs.len() as int;
    lemma_concat_sig_len(sigs);
    assert(b.len() == 68 + 65 * n);
    assert(b.subrange(0, 32) =~= root);
    assert(b.subrange(32, 64) =~= spec_encode_uint(nonce));
    lemma_uint_round_trip(nonce);
    assert(b.subrange(64, 68) =~= u32_le_bytes(sigs.len() as u32));
    lemma_u32_le_round_trip(sigs.len() as u32);
    assert(u32_from_le(b.subrange(64, 68)) as int == n);
    let dec = spec_decode_proof(b);
    assert(dec is Some);
    let v = dec->Some_0;
    assert forall|i: int| 0 <= i < n implies v.2[i] == sigs[i] by {
        lemma_concat_sig_index(sigs, i);
        assert(b.subrange(68 + 65 * i, 68 + 65 * i + 65) =~= concat_bytes(sigs).subrange(
            65 * i,
            65 * i + 65,
        ));
    }
    assert(v.2 =~= sigs);
    assert(v.0 =~= root);
    assert(v.1 == nonce);
}

/// Read a 64-bit little-endian integer from eight bytes of a buffer.
pub fn decode_u64_at(bytes: &Vec<u8>, start: usize) -> (r: u64)
    requires
        start + 8 <= bytes@.len(),
    ensures
        r == u64_from_le(bytes@.subrange(start as int, start as int + 8)),
{
    let b = bytes;
    let _len = b.len();
    let r = (b[start] as u64) | ((b[start + 1] as u64) << 8) | ((b[start + 2] as u64) << 16)
        | ((b[start + 3] as u64) << 24) | ((b[start + 4] as u64) << 32)
        | ((b[start + 5] as u64) << 40) | ((b[start + 6] as u64) << 48)
        | ((b[start + 7] as u64) << 56);
    proof {
        let s = bytes@.subrange(start as int, start as int + 8);
        assert(s[0] == bytes@[start as int] && s[1] == bytes@[start as int + 1]
            && s[2] == bytes@[start as int + 2] && s[3] == bytes@[start as int + 3]
            && s[4] == bytes@[start as int + 4] && s[5] == bytes@[start as int + 5]
            && s[6] == bytes@[start as int + 6] && s[7] == bytes@[start as int + 7]);
    }
    r
}

/// Read a 32-bit little-endian integer from four bytes of a buffer.
pub fn decode_u32_at(bytes: &Vec<u8>, start: usize) -> (r: u32)
    requires
        start + 4 <= bytes@.len(),
    ensures
        r == u32_from_le(bytes@.subrange(start as int, start as int + 4)),
{
    let b = bytes;
    let _len = b.len();
    let r = (b[start] as u32) | ((b[start + 1] as u32) << 8) | ((b[start + 2] as u32) << 16)
        | ((b[start + 3] as u32) << 24);
    proof {
        let s = bytes@.subrange(start as int, start as int + 4);
        assert(s[0] == bytes@[start as int] && s[1] == bytes@[start as int + 1]
            && s[2] == bytes@[start as int + 2] && s[3] == bytes@[start as int + 3]);
    }
    r
}

/// Append the eight little-endian bytes of an integer to a buffer.
pub fn push_u64_le(out: &mut Vec<u8>, x: u64)
    ensures
        final(out)@ == old(out)@ + u64_le_bytes(x),
{
    out.push((x & 0xff) as u8);
    out.push(((x >> 8) & 0xff) as u8);
    out.push(((x >> 16) & 0xff) as u8);
    out.push(((x >> 24) & 0xff) as u8);
    out.push(((x >> 32) & 0xff) as u8);
    out.push(((x >> 40) & 0xff) as u8);
    out.push(((x >> 48) & 0xff) as u8);
    out.push(((x >> 56) & 0xff) as u8);
    proof {
        assert(out@ =~= old(out)@ + u64_le_bytes(x));
    }
}

/// Append the four little-endian bytes of a 32-bit integer to a buffer.
pub fn push_u32_le(out: &mut Vec<u8>, x: u32)
    ensures
        final(out)@ == old(out)@ + u32_le_bytes(x),
{
    out.push((x & 0xff) as u8);
    out.push(((x >> 8) & 0xff) as u8);
    out.push(((x >> 16) & 0xff) as u8);
    out.push(((x >> 24) & 0xff) as u8);
    proof {
        assert(out@ =~= old(out)@ + u32_le_bytes(x));
    }
}

/// Encode a bridge pool nonce as its 32-byte record.
pub fn encode_uint(u: &Uint) -> (r: Vec<u8>)
    ensures
        r@ == spec_encode_uint(*u),
{
    let mut out: Vec<u8> = Vec::new();
    push_u64_le(&mut out, u.limb0);
    push_u64_le(&mut out, u.limb1);
    push_u64_le(&mut out, u.limb2);
    push_u64_le(&mut out, u.limb3);
    proof {
        assert(out@ =~= spec_encode_uint(*u));
    }
    out
}

/// Decode a bridge pool nonce record.
pub fn decode_uint(bytes: &Vec<u8>) -> (r: Option<Uint>)
    ensures
        r == spec_decode_uint(bytes@),
{
    if bytes.len() == 32 {
        Some(Uint {
            limb0: decode_u64_at(bytes, 0),
            limb1: decode_u64_at(bytes, 8),
            limb2: decode_u64_at(bytes, 16),
            limb3: decode_u64_at(bytes, 24),
        })
    } else {
        None
    }
}

/// Encode an activation status as its record.
pub fn encode_status(s: &EthBridgeStatus) -> (r: Vec<u8>)
    ensures
        r@ == spec_encode_status(*s),
{
    let mut out: Vec<u8> = Vec::new();
    match s {
        EthBridgeStatus::Disabled => {
            out.push(0u8);
            proof {
                assert(out@ =~= spec_encode_status(*s));
            }
        }
        EthBridgeStatus::Enabled(EthBridgeEnabled::AtGenesis) => {
            out.push(1u8);
            out.push(0u8);
            proof {
                assert(out@ =~= spec_encode_status(*s));
            }
        }
        EthBridgeStatus::Enabled(EthBridgeEnabled::AtEpoch(e)) => {
            out.push(1u8);
            out.push(1u8);
            push_u64_le(&mut out, e.0);
            proof {
                assert(out@ =~= spec_encode_status(*s));
            }
        }
    }
    out
}

/// Decode an activation record.
pub fn decode_status(bytes: &Vec<u8>) -> (r: Option<EthBridgeStatus>)
    ensures
        r == spec_decode_status(bytes@),
{
    if bytes.len() == 1 && bytes[0] == 0 {
        Some(EthBridgeStatus::Disabled)
    } else if bytes.len() == 2 && bytes[0] == 1 && bytes[1] == 0 {
        Some(EthBridgeStatus::Enabled(EthBridgeEnabled::AtGenesis))
    } else if bytes.len() == 10 && bytes[0] == 1 && bytes[1] == 1 {
        Some(EthBridgeStatus::Enabled(EthBridgeEnabled::AtEpoch(Epoch(decode_u64_at(bytes, 2)))))
    } else {
        None
    }
}

/// A fresh buffer holding `len` bytes of `v` starting at `start`.
pub fn take_bytes(v: &Vec<u8>, start: usize, len: usize) -> (r: Vec<u8>)
    requires
        start + len <= v@.len(),
    ensures
        r@ == v@.subrange(start as int, start as int + len as int),
{
    let l = v.len();
    let mut out: Vec<u8> = Vec::new();
    let mut i: usize = 0;
    while i < len
        invariant
            i <= len,
            start + len <= v@.len(),
            v@.len() == l,
            out@ =~= v@.subrange(start as int, start as int + i as int),
        decreases len - i,
    {
        out.push(v[start + i]);
        proof {
            assert(out@ =~= v@.subrange(start as int, start as int + i as int + 1));
        }
        i = i + 1;
    }
    out
}

/// Appending one more element extends the concatenation by that element.
proof fn lemma_concat_take_push(s: Seq<Seq<u8>>, i: int)
    requires
        0 <= i < s.len(),
    ensures
        concat_bytes(s.take(i + 1)) == concat_bytes(s.take(i)) + s[i],
    decreases i,
{
    if i == 0 {
        assert(s.take(1).len() == 1 && s.take(0).len() == 0);
        assert(s.take(1).drop_first() =~= Seq::<Seq<u8>>::empty());
        assert(s.take(1)[0] == s[0]);
        assert(concat_bytes(s.take(1)) == s[0] + concat_bytes(Seq::<Seq<u8>>::empty()));
        assert(concat_bytes(Seq::<Seq<u8>>::empty()) =~= Seq::<u8>::empty());
        assert(concat_bytes(s.take(0)) =~= Seq::<u8>::empty());
        assert(concat_bytes(s.take(1)) =~= concat_bytes(s.take(0)) + s[0]);
    } else {
        let t = s.drop_first();
        assert(s.take(i + 1).drop_first() =~= t.take(i));
        assert(s.take(i).drop_first() =~= t.take(i - 1));
        lemma_concat_take_push(t, i - 1);
        assert(s.take(i + 1)[0] == s[0] && s.take(i)[0] == s[0]);
        assert(concat_bytes(s.take(i + 1)) == s[0] + concat_bytes(t.take(i)));
        assert(concat_bytes(s.take(i)) == s[0] + concat_bytes(t.take(i - 1)));
        assert(concat_bytes(s.take(i + 1)) =~= concat_bytes(s.take(i)) + s[i]);
    }
}

/// The byte views of a list of signatures.
pub open spec fn sig_views(sigs: Seq<Signature>) -> Seq<Seq<u8>> {
    sigs.map_values(|s: Signature| s.bytes@)
}

/// Encode a signed (root, nonce) commitment as its record.
pub fn encode_proof(p: &EthereumProof) -> (r: Vec<u8>)
    requires
        p.wf(),
    ensures
        r@ == spec_encode_proof(p.root@, p.nonce, sig_views(p.signatures@)),
{
    let mut out: Vec<u8> = copy_bytes(&p.root.bytes);
    let mut nonce_bytes = encode_uint(&p.nonce);
    out.append(&mut nonce_bytes);
    push_u32_le(&mut out, p.signatures.len() as u32);
    let ghost head = out@;
    let mut i: usize = 0;
    while i < p.signatures.len()
        invariant
            i <= p.signatures@.len(),
            p.wf(),
            out@ =~= head + concat_bytes(sig_views(p.signatures@).take(i as int)),
        decreases p.signatures@.len() - i,
    {
        let mut sig = copy_bytes(&p.signatures[i].bytes);
        out.append(&mut sig);
        proof {
            lemma_concat_take_push(sig_views(p.signatures@), i as int);
            assert(out@ =~= head + concat_bytes(sig_views(p.signatures@).take(i as int + 1)));
        }
        i = i + 1;
    }
    proof {
        assert(sig_views(p.signatures@).take(p.signatures@.len() as int)
            =~= sig_views(p.signatures@));
        assert(out@ =~= spec_encode_proof(p.root@, p.nonce, sig_views(p.signatures@)));
    }
    out
}

/// Decode a signed-root record.
pub fn decode_proof(bytes: &Vec<u8>) -> (r: Option<EthereumProof>)
    ensures
        match r {
            Some(p) => {
                &&& p.wf()
                &&& spec_decode_proof(bytes@) == Some((p.root@, p.nonce, sig_views(p.signatures@)))
            },
            None => spec_decode_proof(bytes@) is None,
        },
{
    if bytes.len() < 68 {
        return None;
    }
    let root = KeccakHash { bytes: take_bytes(bytes, 0, 32) };
    let nonce = Uint {
        limb0: decode_u64_at(bytes, 32),
        limb1: decode_u64_at(bytes, 40),
        limb2: decode_u64_at(bytes, 48),
        limb3: decode_u64_at(bytes, 56),
    };
    proof {
        assert(bytes@.subrange(32, 64).subrange(0, 8) =~= bytes@.subrange(32, 40));
        assert(bytes@.subrange(32, 64).subrange(8, 16) =~= bytes@.subrange(40, 48));
        assert(bytes@.subrange(32, 64).subrange(16, 24) =~= bytes@.subrange(48, 56));
        assert(bytes@.subrange(32, 64).subrange(24, 32) =~= bytes@.subrange(56, 64));
    }
    let count = decode_u32_at(bytes, 64);
    if (bytes.len() as u64) != 68u64 + 65u64 * (count as u64) {
        return None;
    }
    let n = count as usize;
    let l = bytes.len();
    let mut sigs: Vec<Signature> = Vec::new();
    let mut i: usize = 0;
    while i < n
        invariant
            i <= n,
            bytes@.len() == l,
            bytes@.len() == 68 + 65 * n,
            sigs@.len() == i,
            forall|j: int| 0 <= j < i ==> (#[trigger] sigs@[j]).bytes@ == bytes@.subrange(
                68 + 65 * j, 68 + 65 * j + 65),
            forall|j: int| 0 <= j < i ==> (#[trigger] sigs@[j]).bytes@.len() == 65,
        decreases n - i,
    {
        let sig = Signature { bytes: take_bytes(bytes, 68 + 65 * i, 65) };
        sigs.push(sig);
        i = i + 1;
    }
    let p = EthereumProof { root, nonce, signatures: sigs };
    proof {
        let dec = spec_decode_proof(bytes@);
        assert(bytes@.len() == 68 + 65 * (count as int));
        assert(dec is Some);
        let v = dec->Some_0;
        assert(v.0 =~= p.root@);
        assert(v.1 == p.nonce);
        assert(v.2 =~= sig_views(p.signatures@));
    }
    Some(p)
}

} // verus!
