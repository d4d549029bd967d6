//! The validator key directory, the active-address enumerator and the
//! canonical validator set builder.
//!
//! The builder's output is what a quorum signs for cross-chain proofs, so
//! its order must be deterministic network-wide: entries are sorted by
//! stake descending, with the hot-key address and then the cold-key
//! address, each compared lexicographically by bytes, as tie-breaks.

use vstd::prelude::*;
use vstd::relations::{sorted_by, total_ordering};
use vstd::seq_lib::lemma_sorted_unique;

use crate::storage::{EpochStakes, KeyAssignment, PosState, Storage, ValidatorKeys,
    WeightedValidator};
use crate::types::{Address, Epoch, EthAddrBook, EthAddress, FatalError, FractionalVotingPower,
    ValidatorSetArgs, bytes_eq, copy_bytes};

verus! {

/// The epoch a query resolves to: the one given, or the current epoch
/// when omitted.
pub open spec fn spec_resolve_epoch(s: &Storage, epoch: Option<Epoch>) -> Epoch {
    match epoch {
        Option::Some(e) => e,
        Option::None => s.current_epoch,
    }
}

/// The key assignment in force at `e`: the latest recorded entry whose
/// starting epoch is at or before `e`.
pub open spec fn spec_key_in_force(h: Seq<KeyAssignment>, e: Epoch) -> Option<Seq<u8>>
    decreases h.len(),
{
    if h.len() == 0 {
        Option::None
    } else if h.last().from_epoch.0 <= e.0 {
        Option::Some(h.last().key@)
    } else {
        spec_key_in_force(h.drop_last(), e)
    }
}

/// The first key-directory entry recorded for `addr`.
pub open spec fn spec_find_keys(s: Seq<ValidatorKeys>, addr: Seq<u8>) -> Option<ValidatorKeys>
    decreases s.len(),
{
    if s.len() == 0 {
        Option::None
    } else if s[0].address@ == addr {
        Option::Some(s[0])
    } else {
        spec_find_keys(s.drop_first(), addr)
    }
}

/// The hot (bridge signing) key of `addr` in force at `e`.
pub open spec fn spec_hot_key(pos: PosState, addr: Seq<u8>, e: Epoch) -> Option<Seq<u8>> {
    match spec_find_keys(pos.keys@, addr) {
        Option::None => Option::None,
        Option::Some(vk) => spec_key_in_force(vk.hot_history@, e),
    }
}

/// The cold (governance) key of `addr` in force at `e`.
pub open spec fn spec_cold_key(pos: PosState, addr: Seq<u8>, e: Epoch) -> Option<Seq<u8>> {
    match spec_find_keys(pos.keys@, addr) {
        Option::None => Option::None,
        Option::Some(vk) => spec_key_in_force(vk.cold_history@, e),
    }
}

/// Both Ethereum identities of `addr` at `e`; present only when both
/// key lookups succeed.
pub open spec fn spec_addr_book(pos: PosState, addr: Seq<u8>, e: Epoch) -> Option<
    (Seq<u8>, Seq<u8>),
> {
    match (spec_hot_key(pos, addr, e), spec_cold_key(pos, addr, e)) {
        (Option::Some(hot), Option::Some(cold)) => Option::Some((hot, cold)),
        _ => Option::None,
    }
}

/// The proof-of-stake data recorded for epoch `e`.
pub open spec fn spec_epoch_stakes(s: Seq<EpochStakes>, e: Epoch) -> Option<EpochStakes>
    decreases s.len(),
{
    if s.len() == 0 {
        Option::None
    } else if s[0].epoch.0 == e.0 {
        Option::Some(s[0])
    } else {
        spec_epoch_stakes(s.drop_first(), e)
    }
}

/// A first-match scan may skip past entries that do not match.
proof fn lemma_find_keys_skip(s: Seq<ValidatorKeys>, addr: Seq<u8>, i: int)
    requires
        0 <= i <= s.len(),
        forall|j: int| 0 <= j < i ==> (#[trigger] s[j]).address@ != addr,
    ensures
        spec_find_keys(s, addr) == spec_find_keys(s.skip(i), addr),
    decreases i,
{
    if i > 0 {
        assert(s.skip(1) =~= s.drop_first());
        assert(s.drop_first().skip(i - 1) =~= s.skip(i));
        assert(forall|j: int|
            0 <= j < i - 1 ==> (#[trigger] s.drop_first()[j]).address@ != addr);
        lemma_find_keys_skip(s.drop_first(), addr, i - 1);
    } else {
        assert(s.skip(0) =~= s);
    }
}

/// A first-match scan may skip past epochs that do not match.
proof fn lemma_epoch_stakes_skip(s: Seq<EpochStakes>, e: Epoch, i: int)
    requires
        0 <= i <= s.len(),
        forall|j: int| 0 <= j < i ==> (#[trigger] s[j]).epoch.0 != e.0,
    ensures
        spec_epoch_stakes(s, e) == spec_epoch_stakes(s.skip(i), e),
    decreases i,
{
    if i > 0 {
        assert(s.skip(1) =~= s.drop_first());
        assert(s.drop_first().skip(i - 1) =~= s.skip(i));
        assert(forall|j: int| 0 <= j < i - 1 ==> (#[trigger] s.drop_first()[j]).epoch.0 != e.0);
        lemma_epoch_stakes_skip(s.drop_first(), e, i - 1);
    } else {
        assert(s.skip(0) =~= s);
    }
}

/// Scan a key-assignment history from its end for the entry in force at
/// `e`.
fn key_in_force(h: &Vec<KeyAssignment>, e: Epoch) -> (r: Option<EthAddress>)
    ensures
        match r {
            Option::Some(k) => spec_key_in_force(h@, e) == Option::Some(k@),
            Option::None => spec_key_in_force(h@, e) is None,
        },
{
    let mut i: usize = h.len();
    proof {
        assert(h@.take(i as int) =~= h@);
    }
    while i > 0
        invariant
            i <= h@.len(),
            spec_key_in_force(h@, e) == spec_key_in_force(h@.take(i as int), e),
        decreases i,
    {
        i = i - 1;
        proof {
            assert(h@.take(i as int + 1).last() == h@[i as int]);
            assert(h@.take(i as int + 1).drop_last() =~= h@.take(i as int));
        }
        if h[i].from_epoch.0 <= e.0 {
            return Option::Some(EthAddress { bytes: copy_bytes(&h[i].key.bytes) });
        }
    }
    proof {
        assert(h@.take(0).len() == 0);
    }
    Option::None
}

impl Storage {
    /// Find the key-directory entry of `validator`, if any.
    fn find_validator_keys(&self, validator: &Address) -> (r: Option<&ValidatorKeys>)
        ensures
            match r {
                Option::Some(vk) => spec_find_keys(self.pos.keys@, validator@) == Option::Some(
                    *vk,
                ),
                Option::None => spec_find_keys(self.pos.keys@, validator@) is None,
            },
    {
        let mut i: usize = 0;
        let n = self.pos.keys.len();
        while i < n
            invariant
                i <= n,
                n == self.pos.keys@.len(),
                forall|j: int| 0 <= j < i ==> (#[trigger] self.pos.keys@[j]).address@
                    != validator@,
            decreases n - i,
        {
            if bytes_eq(&self.pos.keys[i].address.bytes, &validator.bytes) {
                proof {
                    lemma_find_keys_skip(self.pos.keys@, validator@, i as int);
                    assert(self.pos.keys@.skip(i as int)[0] == self.pos.keys@[i as int]);
                }
                return Option::Some(&self.pos.keys[i]);
            }
            i = i + 1;
        }
        proof {
            lemma_find_keys_skip(self.pos.keys@, validator@, n as int);
            assert(self.pos.keys@.skip(n as int).len() == 0);
        }
        Option::None
    }

    /// The proof-of-stake data recorded for the resolved epoch, if any.
    fn find_epoch_stakes(&self, e: Epoch) -> (r: Option<&EpochStakes>)
        ensures
            match r {
                Option::Some(es) => spec_epoch_stakes(self.pos.epoch_stakes@, e) == Option::Some(
                    *es,
                ),
                Option::None => spec_epoch_stakes(self.pos.epoch_stakes@, e) is None,
            },
    {
        let mut i: usize = 0;
        let n = self.pos.epoch_stakes.len();
        while i < n
            invariant
                i <= n,
                n == self.pos.epoch_stakes@.len(),
                forall|j: int| 0 <= j < i ==> (#[trigger] self.pos.epoch_stakes@[j]).epoch.0
                    != e.0,
            decreases n - i,
        {
            if self.pos.epoch_stakes[i].epoch.0 == e.0 {
                proof {
                    lemma_epoch_stakes_skip(self.pos.epoch_stakes@, e, i as int);
                    assert(self.pos.epoch_stakes@.skip(i as int)[0]
                        == self.pos.epoch_stakes@[i as int]);
                }
                return Option::Some(&self.pos.epoch_stakes[i]);
            }
            i = i + 1;
        }
        proof {
            lemma_epoch_stakes_skip(self.pos.epoch_stakes@, e, n as int);
            assert(self.pos.epoch_stakes@.skip(n as int).len() == 0);
        }
        Option::None
    }

    /// The epoch a query resolves to when the caller omits one.
    fn resolve_epoch(&self, epoch: Option<Epoch>) -> (r: Epoch)
        ensures
            r == spec_resolve_epoch(self, epoch),
    {
        match epoch {
            Option::Some(e) => e,
            Option::None => self.current_epoch,
        }
    }

    /// For a given native validator address, return its Ethereum bridge
    /// (hot) address at the resolved epoch. Absence means the validator
    /// had no assignment in force then; it is not an error here.
    pub fn get_ethbridge_from_namada_addr(&self, validator: &Address, epoch: Option<Epoch>) -> (r:
        Option<EthAddress>)
        ensures
            match r {
                Option::Some(k) => spec_hot_key(
                    self.pos,
                    validator@,
                    spec_resolve_epoch(self, epoch),
                ) == Option::Some(k@),
                Option::None => spec_hot_key(
                    self.pos,
                    validator@,
                    spec_resolve_epoch(self, epoch),
                ) is None,
            },
    {
        let e = self.resolve_epoch(epoch);
        match self.find_validator_keys(validator) {
            Option::None => Option::None,
            Option::Some(vk) => key_in_force(&vk.hot_history, e),
        }
    }

    /// For a given native validator address, return its Ethereum
    /// governance (cold) address at the resolved epoch.
    pub fn get_ethgov_from_namada_addr(&self, validator: &Address, epoch: Option<Epoch>) -> (r:
        Option<EthAddress>)
        ensures
            match r {
                Option::Some(k) => spec_cold_key(
                    self.pos,
                    validator@,
                    spec_resolve_epoch(self, epoch),
                ) == Option::Some(k@),
                Option::None => spec_cold_key(
                    self.pos,
                    validator@,
                    spec_resolve_epoch(self, epoch),
                ) is None,
            },
    {
        let e = self.resolve_epoch(epoch);
        match self.find_validator_keys(validator) {
            Option::None => Option::None,
            Option::Some(vk) => key_in_force(&vk.cold_history, e),
        }
    }

    /// For a given native validator address, return its full Ethereum
    /// address book at the resolved epoch: present only when both the
    /// hot and the cold lookup succeed, since a partial identity is not
    /// meaningful.
    pub fn get_eth_addr_book(&self, validator: &Address, epoch: Option<Epoch>) -> (r: Option<
        EthAddrBook,
    >)
        ensures
            match r {
                Option::Some(book) => spec_addr_book(
                    self.pos,
                    validator@,
                    spec_resolve_epoch(self, epoch),
                ) == Option::Some((book.hot_key_addr@, book.cold_key_addr@)),
                Option::None => spec_addr_book(
                    self.pos,
                    validator@,
                    spec_resolve_epoch(self, epoch),
                ) is None,
            },
    {
        let e = self.resolve_epoch(epoch);
        let bridge = match self.get_ethbridge_from_namada_addr(validator, Option::Some(e)) {
            Option::None => {
                return Option::None;
            },
            Option::Some(k) => k,
        };
        let governance = match self.get_ethgov_from_namada_addr(validator, Option::Some(e)) {
            Option::None => {
                return Option::None;
            },
            Option::Some(k) => k,
        };
        Option::Some(EthAddrBook { hot_key_addr: bridge, cold_key_addr: governance })
    }

    /// The total active voting power recorded for the resolved epoch.
    pub fn get_total_voting_power(&self, epoch: Option<Epoch>) -> (r: Option<u64>)
        ensures
            match spec_epoch_stakes(self.pos.epoch_stakes@, spec_resolve_epoch(self, epoch)) {
                Option::Some(es) => r == Option::Some(es.total_power),
                Option::None => r is None,
            },
    {
        let e = self.resolve_epoch(epoch);
        match self.find_epoch_stakes(e) {
            Option::None => Option::None,
            Option::Some(es) => Option::Some(es.total_power),
        }
    }
}

broadcast use
    vstd::seq_lib::group_to_multiset_ensures,
    vstd::multiset::group_multiset_axioms,
    vstd::multiset::group_multiset_properties;

/// The view of one voting-powers entry: hot-key bytes, cold-key bytes,
/// stake.
pub type VpEntryView = (Seq<u8>, Seq<u8>, u64);

/// The view of one (address book, stake) entry.
pub open spec fn vp_entry_view(e: (EthAddrBook, u64)) -> VpEntryView {
    (e.0.hot_key_addr@, e.0.cold_key_addr@, e.1)
}

/// The views of a list of (address book, stake) entries.
pub open spec fn entry_views(s: Seq<(EthAddrBook, u64)>) -> Seq<VpEntryView> {
    s.map_values(|e: (EthAddrBook, u64)| vp_entry_view(e))
}

/// Lexicographic byte order: the empty string first, then by the first
/// differing byte, a prefix before its extensions.
pub open spec fn lex_leq(a: Seq<u8>, b: Seq<u8>) -> bool
    decreases a.len(),
{
    if a.len() == 0 {
        true
    } else if b.len() == 0 {
        false
    } else if a[0] != b[0] {
        a[0] < b[0]
    } else {
        lex_leq(a.drop_first(), b.drop_first())
    }
}

proof fn lemma_lex_refl(a: Seq<u8>)
    ensures
        lex_leq(a, a),
    decreases a.len(),
{
    if a.len() > 0 {
        lemma_lex_refl(a.drop_first());
    }
}

proof fn lemma_lex_antisym(a: Seq<u8>, b: Seq<u8>)
    requires
        lex_leq(a, b),
        lex_leq(b, a),
    ensures
        a == b,
    decreases a.len(),
{
    if a.len() == 0 {
        assert(b.len() == 0);
        assert(a =~= b);
    } else {
        assert(b.len() > 0);
        assert(a[0] == b[0]);
        lemma_lex_antisym(a.drop_first(), b.drop_first());
        assert(a =~= b) by {
            assert(forall|i: int| 1 <= i < a.len() ==> a[i] == a.drop_first()[i - 1]);
            assert(forall|i: int| 1 <= i < b.len() ==> b[i] == b.drop_first()[i - 1]);
        }
    }
}

proof fn lemma_lex_trans(a: Seq<u8>, b: Seq<u8>, c: Seq<u8>)
    requires
        lex_leq(a, b),
        lex_leq(b, c),
    ensures
        lex_leq(a, c),
    decreases a.len(),
{
    if a.len() > 0 {
        assert(b.len() > 0);
        if c.len() > 0 {
            if a[0] == b[0] && b[0] == c[0] {
                lemma_lex_trans(a.drop_first(), b.drop_first(), c.drop_first());
            }
        }
    }
}

proof fn lemma_lex_connected(a: Seq<u8>, b: Seq<u8>)
    ensures
        lex_leq(a, b) || lex_leq(b, a),
    decreases a.len(),
{
    if a.len() > 0 && b.len() > 0 && a[0] == b[0] {
        lemma_lex_connected(a.drop_first(), b.drop_first());
    }
}

/// The canonical total order on voting-powers entries: stake descending,
/// then hot-key bytes ascending, then cold-key bytes ascending. Any
/// deterministic total order would do; this one is fixed network-wide.
pub open spec fn vp_leq(x: VpEntryView, y: VpEntryView) -> bool {
    if x.2 != y.2 {
        x.2 > y.2
    } else if x.0 != y.0 {
        lex_leq(x.0, y.0)
    } else {
        lex_leq(x.1, y.1)
    }
}

/// The canonical order as a relation value.
pub open spec fn vp_order() -> spec_fn(VpEntryView, VpEntryView) -> bool {
    |x: VpEntryView, y: VpEntryView| vp_leq(x, y)
}

/// The canonical order is a total order, so sorting by it is
/// deterministic: equal entry multisets sort to equal sequences.
pub proof fn lemma_vp_total_ordering()
    ensures
        total_ordering(vp_order()),
{
    let leq = vp_order();
    assert forall|x: VpEntryView| #[trigger] leq(x, x) by {
        lemma_lex_refl(x.1);
    }
    assert forall|x: VpEntryView, y: VpEntryView| #[trigger] leq(x, y) && #[trigger] leq(y, x)
        implies x == y by {
        assert(x.2 == y.2);
        if x.0 != y.0 {
            lemma_lex_antisym(x.0, y.0);
            assert(false);
        }
        lemma_lex_antisym(x.1, y.1);
    }
    assert forall|x: VpEntryView, y: VpEntryView, z: VpEntryView|
        #[trigger] leq(x, y) && #[trigger] leq(y, z) implies leq(x, z) by {
        if x.2 == y.2 && y.2 == z.2 {
            lemma_lex_refl(x.0);
            lemma_lex_refl(y.0);
            assert(lex_leq(x.0, y.0));
            assert(lex_leq(y.0, z.0));
            lemma_lex_trans(x.0, y.0, z.0);
            if x.0 == z.0 {
                if x.0 != y.0 {
                    lemma_lex_antisym(x.0, y.0);
                    assert(false);
                }
                lemma_lex_trans(x.1, y.1, z.1);
            }
        }
    }
    assert forall|x: VpEntryView, y: VpEntryView| !(#[trigger] leq(x, y)) implies #[trigger] leq(
        y,
        x,
    ) by {
        if x.2 == y.2 {
            lemma_lex_connected(x.0, y.0);
            lemma_lex_connected(x.1, y.1);
        }
    }
}

/// The canonical sorted form of a list of voting-powers entries.
pub open spec fn spec_canonical(s: Seq<VpEntryView>) -> Seq<VpEntryView> {
    s.sort_by(vp_order())
}

/// Law: the canonical validator-set order is independent of the order in
/// which the active validators were enumerated — permuting the entries
/// (equal multisets) yields the identical canonical sequence.
pub proof fn lemma_canonical_order_independent(s1: Seq<VpEntryView>, s2: Seq<VpEntryView>)
    requires
        s1.to_multiset() == s2.to_multiset(),
    ensures
        spec_canonical(s1) == spec_canonical(s2),
{
    lemma_vp_total_ordering();
    s1.lemma_sort_by_ensures(vp_order());
    s2.lemma_sort_by_ensures(vp_order());
    lemma_sorted_unique(spec_canonical(s1), spec_canonical(s2), vp_order());
}

/// Sum of the stakes of a list of entries.
pub open spec fn sum_stakes(s: Seq<VpEntryView>) -> int
    decreases s.len(),
{
    if s.len() == 0 {
        0
    } else {
        s[0].2 + sum_stakes(s.drop_first())
    }
}

/// Sum of the numerators of a list of fractional powers.
pub open spec fn sum_numer(ps: Seq<FractionalVotingPower>) -> int
    decreases ps.len(),
{
    if ps.len() == 0 {
        0
    } else {
        ps[0].numer + sum_numer(ps.drop_first())
    }
}

proof fn lemma_sum_remove(s: Seq<VpEntryView>, j: int)
    requires
        0 <= j < s.len(),
    ensures
        sum_stakes(s.remove(j)) == sum_stakes(s) - s[j].2,
    decreases j,
{
    if j == 0 {
        assert(s.remove(0) =~= s.drop_first());
    } else {
        assert(s.remove(j).drop_first() =~= s.drop_first().remove(j - 1));
        lemma_sum_remove(s.drop_first(), j - 1);
        assert(s.remove(j)[0] == s[0]);
    }
}

/// Equal multisets of entries have equal stake sums.
proof fn lemma_sum_stakes_multiset(s1: Seq<VpEntryView>, s2: Seq<VpEntryView>)
    requires
        s1.to_multiset() == s2.to_multiset(),
    ensures
        sum_stakes(s1) == sum_stakes(s2),
    decreases s1.len(),
{
    if s1.len() == 0 {
        s1.to_multiset_ensures();
        s2.to_multiset_ensures();
        assert(s2.len() == 0);
    } else {
        let x = s1[0];
        assert(s1.contains(x));
        assert(s2.to_multiset().count(x) > 0);
        assert(s2.contains(x));
        let j = choose|j: int| 0 <= j < s2.len() && s2[j] == x;
        assert(s1.remove(0).to_multiset() =~= s1.to_multiset().remove(x));
        assert(s2.remove(j).to_multiset() =~= s2.to_multiset().remove(x)) by {
            assert(s2[j] == x);
        }
        assert(s1.remove(0) =~= s1.drop_first());
        lemma_sum_stakes_multiset(s1.drop_first(), s2.remove(j));
        lemma_sum_remove(s2, j);
    }
}

proof fn lemma_sum_numer_pointwise(ps: Seq<FractionalVotingPower>, s: Seq<VpEntryView>)
    requires
        ps.len() == s.len(),
        forall|i: int| 0 <= i < s.len() ==> (#[trigger] ps[i]).numer == s[i].2,
    ensures
        sum_numer(ps) == sum_stakes(s),
    decreases s.len(),
{
    if s.len() > 0 {
        assert(forall|i: int|
            0 <= i < s.len() - 1 ==> (#[trigger] ps.drop_first()[i]).numer
                == s.drop_first()[i].2);
        lemma_sum_numer_pointwise(ps.drop_first(), s.drop_first());
    }
}

/// Inserting an element anywhere adds exactly it to the multiset.
proof fn lemma_insert_multiset(s: Seq<VpEntryView>, j: int, x: VpEntryView)
    requires
        0 <= j <= s.len(),
    ensures
        s.insert(j, x).to_multiset() == s.to_multiset().insert(x),
    decreases s.len(),
{
    let t = s.insert(j, x);
    s.insert_ensures(j, x);
    assert(t.remove(j) =~= s);
    assert(t[j] == x);
    assert(t.remove(j).to_multiset() =~= t.to_multiset().remove(x));
    assert(t.contains(x)) by {
        assert(t[j] == x);
    }
    assert(t.to_multiset().count(x) > 0);
    assert forall|a: VpEntryView| t.to_multiset().count(a) == s.to_multiset().insert(x).count(
        a,
    ) by {
        if a == x {
            assert(s.to_multiset().count(x) == t.to_multiset().remove(x).count(x));
        }
    }
    assert(t.to_multiset() =~= s.to_multiset().insert(x));
}

/// Inserting at the found position keeps the run sorted.
#[verifier::rlimit(60)]
proof fn lemma_sorted_insert(s: Seq<VpEntryView>, j: int, x: VpEntryView)
    requires
        sorted_by(s, vp_order()),
        0 <= j <= s.len(),
        forall|k: int| 0 <= k < j ==> vp_leq(#[trigger] s[k], x),
        j < s.len() ==> !vp_leq(s[j], x),
    ensures
        sorted_by(s.insert(j, x), vp_order()),
{
    lemma_vp_total_ordering();
    let t = s.insert(j, x);
    s.insert_ensures(j, x);
    let leq = vp_order();
    assert(forall|a: VpEntryView, b: VpEntryView| #[trigger] leq(a, b) == vp_leq(a, b));
    assert forall|k: int| j <= k < s.len() implies vp_leq(x, #[trigger] s[k]) by {
        assert(leq(x, s[j]) || leq(s[j], x));
        assert(leq(x, s[j]));
        if k > j {
            assert(leq(s[j], s[k]));
            assert(leq(x, s[j]) && leq(s[j], s[k]) ==> leq(x, s[k]));
        }
    }
    assert forall|m: int, n: int| 0 <= m < n < t.len() implies #[trigger] leq(t[m], t[n]) by {
        if n < j {
            assert(t[m] == s[m] && t[n] == s[n]);
            assert(leq(s[m], s[n]));
        } else if m < j && n == j {
            assert(t[m] == s[m] && t[n] == x);
            assert(vp_leq(s[m], x));
        } else if m < j && n > j {
            assert(t[m] == s[m] && t[n] == s[n - 1]);
            if m == n - 1 {
                assert(vp_leq(s[m], x) && vp_leq(x, s[m]));
            } else {
                assert(leq(s[m], s[n - 1]));
            }
        } else if m == j {
            assert(t[m] == x && t[n] == s[n - 1]);
            assert(vp_leq(x, s[n - 1]));
        } else {
            assert(t[m] == s[m - 1] && t[n] == s[n - 1]);
            assert(leq(s[m - 1], s[n - 1]));
        }
    }
}

/// Compare two buffers in lexicographic byte order.
fn bytes_lex_le(a: &Vec<u8>, b: &Vec<u8>) -> (r: bool)
    ensures
        r == lex_leq(a@, b@),
{
    let an = a.len();
    let bn = b.len();
    let mut i: usize = 0;
    while i < an && i < bn
        invariant
            an == a@.len(),
            bn == b@.len(),
            i <= an,
            i <= bn,
            forall|j: int| 0 <= j < i ==> a@[j] == b@[j],
        decreases an - i,
    {
        if a[i] < b[i] {
            proof {
                lemma_lex_skip(a@, b@, i as int);
            }
            return true;
        }
        if a[i] > b[i] {
            proof {
                lemma_lex_skip(a@, b@, i as int);
            }
            return false;
        }
        i = i + 1;
    }
    proof {
        lemma_lex_skip(a@, b@, i as int);
    }
    an <= bn
}

/// A shared byte prefix does not affect the lexicographic comparison.
proof fn lemma_lex_skip(a: Seq<u8>, b: Seq<u8>, i: int)
    requires
        0 <= i <= a.len(),
        i <= b.len(),
        forall|j: int| 0 <= j < i ==> a[j] == b[j],
    ensures
        lex_leq(a, b) == lex_leq(a.skip(i), b.skip(i)),
    decreases i,
{
    if i > 0 {
        assert(a.drop_first().skip(i - 1) =~= a.skip(i));
        assert(b.drop_first().skip(i - 1) =~= b.skip(i));
        assert(forall|j: int| 0 <= j < i - 1 ==> a.drop_first()[j] == b.drop_first()[j]);
        lemma_lex_skip(a.drop_first(), b.drop_first(), i - 1);
    } else {
        assert(a.skip(0) =~= a);
        assert(b.skip(0) =~= b);
    }
}

/// Compare two voting-powers entries in the canonical order.
fn entry_le(a: &(EthAddrBook, u64), b: &(EthAddrBook, u64)) -> (r: bool)
    ensures
        r == vp_leq(vp_entry_view(*a), vp_entry_view(*b)),
{
    if a.1 != b.1 {
        a.1 > b.1
    } else if !bytes_eq(&a.0.hot_key_addr.bytes, &b.0.hot_key_addr.bytes) {
        bytes_lex_le(&a.0.hot_key_addr.bytes, &b.0.hot_key_addr.bytes)
    } else {
        bytes_lex_le(&a.0.cold_key_addr.bytes, &b.0.cold_key_addr.bytes)
    }
}

/// Sort voting-powers entries into the canonical order by insertion.
fn sort_entries(entries: Vec<(EthAddrBook, u64)>) -> (r: Vec<(EthAddrBook, u64)>)
    ensures
        sorted_by(entry_views(r@), vp_order()),
        entry_views(r@).to_multiset() == entry_views(entries@).to_multiset(),
{
    let mut rest = entries;
    let mut out: Vec<(EthAddrBook, u64)> = Vec::new();
    proof {
        assert(entry_views(out@).len() == 0);
        assert(entry_views(out@).to_multiset().add(entry_views(rest@).to_multiset())
            =~= entry_views(entries@).to_multiset());
    }
    while rest.len() > 0
        invariant
            sorted_by(entry_views(out@), vp_order()),
            entry_views(out@).to_multiset().add(entry_views(rest@).to_multiset())
                == entry_views(entries@).to_multiset(),
        decreases rest.len(),
    {
        let ghost rest_before = rest@;
        let e = rest.pop().unwrap();
        proof {
            assert(rest_before =~= rest@.push(e));
            assert(entry_views(rest@.push(e)) =~= entry_views(rest@).push(vp_entry_view(e)));
        }
        let mut j: usize = 0;
        while j < out.len() && entry_le(&out[j], &e)
            invariant
                j <= out@.len(),
                forall|k: int| 0 <= k < j ==> vp_leq(
                    #[trigger] entry_views(out@)[k],
                    vp_entry_view(e),
                ),
            decreases out@.len() - j,
        {
            j = j + 1;
        }
        let ghost out_before = out@;
        let ghost ev = vp_entry_view(e);
        out.insert(j, e);
        proof {
            assert(out@ =~= out_before.insert(j as int, e));
            assert(entry_views(out@) =~= entry_views(out_before).insert(j as int, ev)) by {
                out_before.insert_ensures(j as int, e);
                entry_views(out_before).insert_ensures(j as int, ev);
                assert(forall|k: int| 0 <= k < out@.len() ==> entry_views(out@)[k]
                    == vp_entry_view(out@[k]));
            }
            lemma_insert_multiset(entry_views(out_before), j as int, ev);
            lemma_sorted_insert(entry_views(out_before), j as int, ev);
            assert(entry_views(out@).to_multiset().add(entry_views(rest@).to_multiset())
                =~= entry_views(entries@).to_multiset());
        }
    }
    proof {
        assert(entry_views(rest@).len() == 0);
        assert(entry_views(out@).to_multiset() =~= entry_views(entries@).to_multiset());
    }
    out
}

/// Whether every validator of an active set has both Ethereum keys
/// registered at epoch `e`. Protocol rule: an active validator must.
pub open spec fn spec_all_books_present(pos: PosState, vs: Seq<WeightedValidator>, e: Epoch) -> bool {
    forall|i: int|
        0 <= i < vs.len() ==> spec_addr_book(pos, (#[trigger] vs[i]).address@, e) is Some
}

/// The voting-powers entry views derived from an active set: each
/// validator's address book and bonded stake, in enumeration order.
pub open spec fn spec_vp_views(pos: PosState, vs: Seq<WeightedValidator>, e: Epoch) -> Seq<
    VpEntryView,
>
    recommends
        spec_all_books_present(pos, vs, e),
{
    Seq::new(
        vs.len(),
        |i: int|
            {
                let book = spec_addr_book(pos, vs[i].address@, e)->Some_0;
                (book.0, book.1, vs[i].bonded_stake)
            },
    )
}

/// The fractional powers derived from sorted entries and a total.
pub open spec fn spec_powers(s: Seq<VpEntryView>, total_power: u64) -> Seq<
    FractionalVotingPower,
> {
    s.map_values(|x: VpEntryView| FractionalVotingPower { numer: x.2, denom: total_power })
}

/// Law: for a voting-powers map whose total power is positive and equals
/// the sum of its stakes, the derived fractional powers all carry that
/// total as denominator, and their numerators sum to it — so as rational
/// numbers with the common denominator `total`, the shares sum to
/// exactly one.
pub proof fn lemma_fractional_powers_sum_to_one(entries: Seq<VpEntryView>, total: u64)
    requires
        total > 0,
        sum_stakes(entries) == total,
    ensures
        forall|i: int|
            0 <= i < spec_canonical(entries).len() ==> (#[trigger] spec_powers(
                spec_canonical(entries),
                total,
            )[i]).denom == total,
        sum_numer(spec_powers(spec_canonical(entries), total)) == total,
{
    lemma_vp_total_ordering();
    entries.lemma_sort_by_ensures(vp_order());
    let sorted = spec_canonical(entries);
    lemma_sum_stakes_multiset(entries, sorted);
    lemma_sum_numer_pointwise(spec_powers(sorted, total), sorted);
}

/// Law: the built validator set arguments are order-independent in the
/// enumerated entries — permuting the voting-powers entries (equal
/// multisets) yields the identical hot-key sequence and the identical
/// fractional-power sequence.
pub proof fn lemma_validator_set_order_independent(
    s1: Seq<VpEntryView>,
    s2: Seq<VpEntryView>,
    total: u64,
)
    requires
        s1.to_multiset() == s2.to_multiset(),
    ensures
        spec_canonical(s1).map_values(|x: VpEntryView| x.0) == spec_canonical(s2).map_values(
            |x: VpEntryView| x.0,
        ),
        spec_powers(spec_canonical(s1), total) == spec_powers(spec_canonical(s2), total),
{
    lemma_canonical_order_independent(s1, s2);
}

/// Build the canonical validator set argument structure from the
/// voting-powers entries at `epoch` and the total power at that epoch:
/// sort canonically, then annotate each hot-key address with its share
/// of the total. Fails exactly when some stake exceeds the total, or the
/// total is zero while an entry exists — either signals inconsistent
/// proof-of-stake accounting.
pub fn validator_set_args_from(
    epoch: Epoch,
    entries: Vec<(EthAddrBook, u64)>,
    total_power: u64,
) -> (r: Result<ValidatorSetArgs, FatalError>)
    ensures
        r is Ok <==> (forall|x: VpEntryView|
            #[trigger] entry_views(entries@).contains(x) ==> total_power > 0 && x.2
                <= total_power),
        r is Err ==> r == Err::<ValidatorSetArgs, FatalError>(FatalError::InvalidVotingPower),
        r matches Ok(args) ==> {
            let sorted = spec_canonical(entry_views(entries@));
            &&& args.epoch == epoch
            &&& args.validators@.len() == sorted.len()
            &&& args.voting_powers@.len() == sorted.len()
            &&& forall|i: int|
                0 <= i < sorted.len() ==> (#[trigger] args.validators@[i])@ == sorted[i].0
            &&& forall|i: int|
                0 <= i < sorted.len() ==> #[trigger] args.voting_powers@[i]
                    == (FractionalVotingPower { numer: sorted[i].2, denom: total_power })
            &&& sum_numer(args.voting_powers@) == sum_stakes(entry_views(entries@))
        },
{
    let ghost input_views = entry_views(entries@);
    let sorted = sort_entries(entries);
    proof {
        lemma_vp_total_ordering();
        input_views.lemma_sort_by_ensures(vp_order());
        lemma_sorted_unique(entry_views(sorted@), spec_canonical(input_views), vp_order());
        assert(entry_views(sorted@) == spec_canonical(input_views));
        assert forall|x: VpEntryView| entry_views(sorted@).contains(x)
            == input_views.contains(x) by {
            assert(entry_views(sorted@).contains(x) <==> entry_views(sorted@).to_multiset().count(
                x,
            ) > 0);
            assert(input_views.contains(x) <==> input_views.to_multiset().count(x) > 0);
        }
    }
    let mut validators: Vec<EthAddress> = Vec::new();
    let mut voting_powers: Vec<FractionalVotingPower> = Vec::new();
    let n = sorted.len();
    let mut i: usize = 0;
    while i < n
        invariant
            i <= n,
            n == sorted@.len(),
            input_views == entry_views(entries@),
            sorted_by(entry_views(sorted@), vp_order()),
            entry_views(sorted@) == spec_canonical(input_views),
            entry_views(sorted@).to_multiset() == input_views.to_multiset(),
            forall|x: VpEntryView| #[trigger] entry_views(sorted@).contains(x)
                == input_views.contains(x),
            validators@.len() == i,
            voting_powers@.len() == i,
            forall|k: int|
                0 <= k < i ==> (#[trigger] validators@[k])@ == entry_views(sorted@)[k].0,
            forall|k: int|
                0 <= k < i ==> #[trigger] voting_powers@[k] == (FractionalVotingPower {
                    numer: entry_views(sorted@)[k].2,
                    denom: total_power,
                }),
            forall|k: int|
                0 <= k < i ==> total_power > 0 && (#[trigger] entry_views(sorted@)[k]).2
                    <= total_power,
        decreases n - i,
    {
        let stake = sorted[i].1;
        proof {
            assert(entry_views(sorted@)[i as int] == vp_entry_view(sorted@[i as int]));
        }
        match FractionalVotingPower::new(stake, total_power) {
            Result::Err(_) => {
                proof {
                    let x = entry_views(sorted@)[i as int];
                    assert(entry_views(sorted@).contains(x));
                    assert(input_views.contains(x));
                    assert(!(total_power > 0 && x.2 <= total_power));
                }
                return Err(FatalError::InvalidVotingPower);
            },
            Result::Ok(f) => {
                validators.push(
                    EthAddress { bytes: copy_bytes(&sorted[i].0.hot_key_addr.bytes) },
                );
                voting_powers.push(f);
            },
        }
        i = i + 1;
    }
    proof {
        assert forall|x: VpEntryView| entry_views(sorted@).contains(x) implies total_power > 0
            && x.2 <= total_power by {
            let k = choose|k: int|
                0 <= k < entry_views(sorted@).len() && entry_views(sorted@)[k] == x;
            assert(entry_views(sorted@)[k] == x);
        }
        lemma_sum_numer_pointwise(voting_powers@, entry_views(sorted@));
        lemma_sum_stakes_multiset(entry_views(sorted@), input_views);
    }
    Ok(ValidatorSetArgs { epoch, validators, voting_powers })
}

impl Storage {
    /// One entry per active validator at the resolved epoch: its address
    /// book, native address and bonded stake, in enumeration order. An
    /// active validator without a registered key pair is a fatal
    /// protocol-invariant violation, never silently skipped; an epoch
    /// with no recorded proof-of-stake data is a fatal missing record.
    pub fn get_active_eth_addresses(&self, epoch: Option<Epoch>) -> (r: Result<
        Vec<(EthAddrBook, Address, u64)>,
        FatalError,
    >)
        ensures
            ({
                let e = spec_resolve_epoch(self, epoch);
                match spec_epoch_stakes(self.pos.epoch_stakes@, e) {
                    Option::None => r == Err::<Vec<(EthAddrBook, Address, u64)>, FatalError>(
                        FatalError::MissingRecord,
                    ),
                    Option::Some(es) => {
                        &&& (r is Ok <==> spec_all_books_present(self.pos, es.validators@, e))
                        &&& (r is Err ==> r == Err::<Vec<(EthAddrBook, Address, u64)>, FatalError>(
                            FatalError::MissingEthereumKeys,
                        ))
                        &&& match r {
                            Ok(v) => {
                                &&& v@.len() == es.validators@.len()
                                &&& forall|i: int|
                                    #![trigger v@[i]]
                                    0 <= i < es.validators@.len() ==> {
                                        let wv = es.validators@[i];
                                        let entry = v@[i];
                                        &&& spec_addr_book(self.pos, wv.address@, e)
                                            == Option::Some(
                                            (entry.0.hot_key_addr@, entry.0.cold_key_addr@),
                                        )
                                        &&& entry.1@ == wv.address@
                                        &&& entry.2 == wv.bonded_stake
                                    }
                            },
                            Err(_) => true,
                        }
                    },
                }
            }),
    {
        let e = self.resolve_epoch(epoch);
        let es = match self.find_epoch_stakes(e) {
            Option::None => {
                return Err(FatalError::MissingRecord);
            },
            Option::Some(es) => es,
        };
        let mut out: Vec<(EthAddrBook, Address, u64)> = Vec::new();
        let n = es.validators.len();
        let mut i: usize = 0;
        while i < n
            invariant
                i <= n,
                n == es.validators@.len(),
                e == spec_resolve_epoch(self, epoch),
                spec_epoch_stakes(self.pos.epoch_stakes@, e) == Option::Some(*es),
                out@.len() == i,
                forall|k: int|
                    #![trigger out@[k]]
                    0 <= k < i ==> {
                        let wv = es.validators@[k];
                        let entry = out@[k];
                        &&& spec_addr_book(self.pos, wv.address@, e) == Option::Some(
                            (entry.0.hot_key_addr@, entry.0.cold_key_addr@),
                        )
                        &&& entry.1@ == wv.address@
                        &&& entry.2 == wv.bonded_stake
                    },
            decreases n - i,
        {
            let wv = &es.validators[i];
            match self.get_eth_addr_book(&wv.address, Option::Some(e)) {
                Option::None => {
                    proof {
                        assert(spec_addr_book(
                            self.pos,
                            (es.validators@[i as int]).address@,
                            e,
                        ) is None);
                        assert(!spec_all_books_present(self.pos, es.validators@, e));
                    }
                    return Err(FatalError::MissingEthereumKeys);
                },
                Option::Some(book) => {
                    let addr = Address { bytes: copy_bytes(&wv.address.bytes) };
                    out.push((book, addr, wv.bonded_stake));
                },
            }
            i = i + 1;
        }
        proof {
            assert forall|k: int| 0 <= k < es.validators@.len() implies spec_addr_book(
                self.pos,
                (#[trigger] es.validators@[k]).address@,
                e,
            ) is Some by {
                assert(out@[k].2 == es.validators@[k].bonded_stake);
            }
            assert(spec_all_books_present(self.pos, es.validators@, e));
        }
        Ok(out)
    }

    /// Query the canonical validator set arguments at the resolved
    /// epoch: the voting-powers map of the active set, sorted
    /// canonically, each validator represented by its hot-key address
    /// and its share of the total active voting power.
    pub fn get_validator_set_args(&self, epoch: Option<Epoch>) -> (r: Result<
        ValidatorSetArgs,
        FatalError,
    >)
        ensures
            ({
                let e = spec_resolve_epoch(self, epoch);
                match spec_epoch_stakes(self.pos.epoch_stakes@, e) {
                    Option::None => r == Err::<ValidatorSetArgs, FatalError>(
                        FatalError::MissingRecord,
                    ),
                    Option::Some(es) => {
                        &&& (!spec_all_books_present(self.pos, es.validators@, e) ==> r == Err::<
                            ValidatorSetArgs,
                            FatalError,
                        >(FatalError::MissingEthereumKeys))
                        &&& (spec_all_books_present(self.pos, es.validators@, e) ==> {
                            let vs = spec_vp_views(self.pos, es.validators@, e);
                            &&& (r is Ok <==> (forall|x: VpEntryView| #[trigger] vs.contains(x)
                                ==> es.total_power > 0 && x.2 <= es.total_power))
                            &&& (r is Err ==> r == Err::<ValidatorSetArgs, FatalError>(
                                FatalError::InvalidVotingPower,
                            ))
                            &&& (r matches Ok(args) ==> {
                                let sorted = spec_canonical(vs);
                                &&& args.epoch == e
                                &&& args.validators@.len() == sorted.len()
                                &&& args.voting_powers@.len() == sorted.len()
                                &&& forall|i: int|
                                    0 <= i < sorted.len() ==> (#[trigger] args.validators@[i])@
                                        == sorted[i].0
                                &&& forall|i: int|
                                    0 <= i < sorted.len() ==> #[trigger] args.voting_powers@[i]
                                        == (FractionalVotingPower {
                                        numer: sorted[i].2,
                                        denom: es.total_power,
                                    })
                                &&& sum_numer(args.voting_powers@) == sum_stakes(vs)
                            })
                        })
                    },
                }
            }),
    {
        let e = self.resolve_epoch(epoch);
        let actives = match self.get_active_eth_addresses(Option::Some(e)) {
            Result::Err(er) => {
                return Err(er);
            },
            Result::Ok(v) => v,
        };
        let total_power = match self.get_total_voting_power(Option::Some(e)) {
            Option::None => {
                return Err(FatalError::MissingRecord);
            },
            Option::Some(t) => t,
        };
        let mut entries: Vec<(EthAddrBook, u64)> = Vec::new();
        let n = actives.len();
        let mut i: usize = 0;
        while i < n
            invariant
                i <= n,
                n == actives@.len(),
                entries@.len() == i,
                forall|k: int|
                    #![trigger entries@[k]]
                    0 <= k < i ==> {
                        &&& entries@[k].0.hot_key_addr@ == actives@[k].0.hot_key_addr@
                        &&& entries@[k].0.cold_key_addr@ == actives@[k].0.cold_key_addr@
                        &&& entries@[k].1 == actives@[k].2
                    },
            decreases n - i,
        {
            let book = EthAddrBook {
                hot_key_addr: EthAddress {
                    bytes: copy_bytes(&actives[i].0.hot_key_addr.bytes),
                },
                cold_key_addr: EthAddress {
                    bytes: copy_bytes(&actives[i].0.cold_key_addr.bytes),
                },
            };
            let stake = actives[i].2;
            entries.push((book, stake));
            i = i + 1;
        }
        proof {
            let ghost es = spec_epoch_stakes(self.pos.epoch_stakes@, e)->Some_0;
            assert(entry_views(entries@) =~= spec_vp_views(self.pos, es.validators@, e));
        }
        validator_set_args_from(e, entries, total_power)
    }
}

} // verus!
