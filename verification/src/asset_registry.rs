//! The asset registry: on-chain identities of industrial assets, with their owners,
//! an allowlist of asset types, per-owner deduplication of metadata and a two-step
//! admin hand-over.

use soroban_sdk::xdr::ToXdr;
use vstd::prelude::*;

use crate::paging::{copy_all, copy_without, page, page_fits, page_spec, without, Duplicate};
use crate::table::{Table, TableKey};
use crate::{Address, Symbol};

verus! {

#[verifier::external_type_specification]
#[verifier::external_body]
pub struct ExEnv(soroban_sdk::Env);

/// The SHA-256 digest of the XDR encoding of the contract string with these characters.
pub uninterp spec fn metadata_sha256(metadata: Seq<char>) -> Seq<u8>;

/// The digest under which an owner's asset metadata is deduplicated. Calls
/// `soroban_sdk::crypto::Crypto::sha256` on `soroban_sdk::xdr::ToXdr::to_xdr` of
/// `soroban_sdk::String::from_str(env, metadata)`. The contract claims only that the
/// 32-byte digest depends on the characters of `metadata` alone, under the name
/// `metadata_sha256`; nothing is claimed of which digest that is.
#[verifier::external_body]
fn metadata_digest(env: &soroban_sdk::Env, metadata: &String) -> (digest: [u8; 32])
    ensures
        digest@ == metadata_sha256(metadata@),
{
    let text = soroban_sdk::String::from_str(env, metadata.as_str());
    env.crypto().sha256(&text.to_xdr(env)).to_array()
}

/// The failures of the asset registry.
#[derive(Clone, Copy, Debug, PartialEq, Eq, Structural)]
pub enum ContractError {
    AssetNotFound,
    /// Same owner attempted to register an asset with identical metadata.
    DuplicateAsset,
    UnauthorizedAdmin,
    UnauthorizedOwner,
    NotInitialized,
    AdminAlreadyInitialized,
    Paused,
    InvalidAssetType,
    PendingAdminAlreadyExists,
    TypeInUse,
}

/// A further error code of the asset registry's interface; no entry point returns it.
#[derive(Clone, Copy, Debug, PartialEq, Eq, Structural)]
pub enum Error {
    MetadataTooLong,
}

/// A registered asset.
#[derive(Debug, PartialEq, Eq)]
pub struct Asset {
    pub asset_id: u64,
    pub asset_type: Symbol,
    pub metadata: String,
    pub owner: Address,
    pub registered_at: u64,
    pub metadata_updated_at: u64,
}

impl Duplicate for Asset {
    fn duplicate(&self) -> (copy: Self) {
        Asset {
            asset_id: self.asset_id,
            asset_type: self.asset_type.clone(),
            metadata: self.metadata.clone(),
            owner: self.owner.clone(),
            registered_at: self.registered_at,
            metadata_updated_at: self.metadata_updated_at,
        }
    }
}

/// One asset of a batch registration.
#[derive(Debug, PartialEq, Eq)]
pub struct AssetInput {
    pub asset_type: Symbol,
    pub metadata: String,
}

/// What the registry publishes when its state changes.
#[derive(Debug, PartialEq, Eq)]
pub enum RegistryEvent {
    /// `REG_AST`
    AssetRegistered { asset_id: u64, asset_type: Symbol, owner: Address, timestamp: u64 },
    /// `BATCH_REG`
    BatchRegistered { owner: Address, asset_ids: Vec<u64>, timestamp: u64 },
    /// `PROP_ADM`
    AdminProposed { admin: Address, new_admin: Address },
    /// `DEREG_AST`
    AssetDeregistered { asset_id: u64, asset_type: Symbol, owner: Address },
    /// `UPD_META`
    MetadataUpdated { asset_id: u64, owner: Address, metadata: String, timestamp: u64 },
    /// `TRANSFER`
    AssetTransferred { asset_id: u64, from: Address, to: Address, timestamp: u64 },
    /// `UPGRADE`
    Upgraded { admin: Address, wasm_hash: [u8; 32] },
    /// `ADD_TYPE`
    AssetTypeAdded { asset_type: Symbol },
    /// `RM_TYPE`
    AssetTypeRemoved { asset_type: Symbol },
}

/// Key of the deduplication index: an owner and the digest of some metadata.
pub struct DedupKey {
    pub owner: Address,
    pub digest: [u8; 32],
}

impl View for DedupKey {
    type V = (Seq<char>, Seq<u8>);

    open spec fn view(&self) -> (Seq<char>, Seq<u8>) {
        (self.owner@, self.digest@)
    }
}

fn digests_equal(a: &[u8; 32], b: &[u8; 32]) -> (same: bool)
    ensures
        same == (a@ == b@),
{
    let mut i: usize = 0;
    while i < 32
        invariant
            i <= 32,
            a@.len() == 32,
            b@.len() == 32,
            forall|j: int| 0 <= j < i ==> a@[j] == b@[j],
        decreases 32 - i,
    {
        if a[i] != b[i] {
            return false;
        }
        i = i + 1;
    }
    assert(a@ =~= b@);
    true
}

impl TableKey for DedupKey {
    fn same_key(&self, other: &Self) -> (same: bool) {
        self.owner == other.owner && digests_equal(&self.digest, &other.digest)
    }

    fn copy_key(&self) -> (copy: Self) {
        DedupKey { owner: self.owner.clone(), digest: self.digest }
    }
}

/// The asset registry's state, as the contract keeps it in storage.
pub struct AssetRegistry {
    assets: Table<u64, Asset>,
    asset_count: u64,
    dedup: Table<DedupKey, u64>,
    owner_index: Table<Address, Vec<u64>>,
    asset_types: Table<Symbol, bool>,
    type_counts: Table<Symbol, u64>,
    admin: Option<Address>,
    pending_admin: Option<Address>,
    paused: bool,
    events: Vec<RegistryEvent>,
}

/// The registry's state as mathematical values.
pub struct AssetRegistryView {
    /// asset id to asset
    pub assets: Map<u64, Asset>,
    /// the last asset id handed out
    pub asset_count: u64,
    /// (owner, metadata digest) to asset id
    pub dedup: Map<(Seq<char>, Seq<u8>), u64>,
    /// owner to the ids of the owner's assets
    pub owner_index: Map<Seq<char>, Seq<u64>>,
    /// the asset type allowlist
    pub asset_types: Map<Seq<char>, bool>,
    /// asset type to the number of registered assets of that type
    pub type_counts: Map<Seq<char>, u64>,
    pub admin: Option<Seq<char>>,
    pub pending_admin: Option<Seq<char>>,
    pub paused: bool,
    /// everything published so far, oldest first
    pub events: Seq<RegistryEvent>,
}

pub open spec fn address_view(a: Option<Address>) -> Option<Seq<char>> {
    match a {
        Some(x) => Some(x@),
        None => None,
    }
}

impl View for AssetRegistry {
    type V = AssetRegistryView;

    closed spec fn view(&self) -> AssetRegistryView {
        AssetRegistryView {
            assets: self.assets@,
            asset_count: self.asset_count,
            dedup: self.dedup@,
            owner_index: self.owner_index@.map_values(|ids: Vec<u64>| ids@),
            asset_types: self.asset_types@,
            type_counts: self.type_counts@,
            admin: address_view(self.admin),
            pending_admin: address_view(self.pending_admin),
            paused: self.paused,
            events: self.events@,
        }
    }
}

/// The ids listed under `owner` in an owner index (none where the owner has no entry).
pub open spec fn listed(index: Map<Seq<char>, Seq<u64>>, owner: Seq<char>) -> Seq<u64> {
    if index.contains_key(owner) {
        index[owner]
    } else {
        Seq::empty()
    }
}

/// The stored count of assets of type `t` (zero where none is stored).
pub open spec fn type_count(v: AssetRegistryView, t: Seq<char>) -> int {
    if v.type_counts.contains_key(t) {
        v.type_counts[t] as int
    } else {
        0
    }
}

/// Whether `t` is on the asset type allowlist.
pub open spec fn type_allowed(v: AssetRegistryView, t: Seq<char>) -> bool {
    v.asset_types.contains_key(t) && v.asset_types[t]
}

/// The ids of the registered assets of type `t`.
pub open spec fn assets_of_type(assets: Map<u64, Asset>, t: Seq<char>) -> Set<u64> {
    assets.dom().filter(|id: u64| assets[id].asset_type@ == t)
}

/// The key under which asset `a` is deduplicated.
pub open spec fn dedup_key_of(a: Asset) -> (Seq<char>, Seq<u8>) {
    (a.owner@, metadata_sha256(a.metadata@))
}

/// What holds of the registry's state between calls.
pub open spec fn registry_invariant(v: AssetRegistryView) -> bool {
    &&& v.assets.dom().finite()
    // ids are handed out in order, and each asset knows its id
    &&& forall|id: u64| #[trigger]
        v.assets.contains_key(id) ==> 1 <= id <= v.asset_count && v.assets[id].asset_id == id
    // every deduplication entry names a registered asset of that owner with that digest
    &&& forall|k: (Seq<char>, Seq<u8>)| #[trigger]
        v.dedup.contains_key(k) ==> v.assets.contains_key(v.dedup[k]) && dedup_key_of(
            v.assets[v.dedup[k]],
        ) == k
    // the owner and metadata of every registered asset have a deduplication entry
    &&& forall|id: u64| #[trigger]
        v.assets.contains_key(id) ==> v.dedup.contains_key(dedup_key_of(v.assets[id]))
    // the owner index lists each asset once, under its owner, and nothing else
    &&& forall|o: Seq<char>| #[trigger]
        v.owner_index.contains_key(o) ==> v.owner_index[o].no_duplicates()
    &&& forall|o: Seq<char>, i: int|
        #![trigger v.owner_index[o][i]]
        v.owner_index.contains_key(o) && 0 <= i < v.owner_index[o].len() ==> {
            &&& v.assets.contains_key(v.owner_index[o][i])
            &&& v.assets[v.owner_index[o][i]].owner@ == o
        }
    &&& forall|id: u64| #[trigger]
        v.assets.contains_key(id) ==> listed(v.owner_index, v.assets[id].owner@).contains(id)
    // the stored type counts are the numbers of registered assets of each type
    &&& forall|t: Seq<char>| #[trigger] type_count(v, t) == assets_of_type(v.assets, t).len()
    &&& forall|t: Seq<char>| #[trigger] type_count(v, t) <= v.asset_count
}

// ---------------------------------------------------------------------------------------
// Lemmas on the pieces of the state
// ---------------------------------------------------------------------------------------

/// Filtering an element out of a list.
pub proof fn lemma_without(s: Seq<u64>, x: u64)
    ensures
        forall|y: u64| #[trigger] without(s, x).contains(y) <==> (s.contains(y) && y != x),
        s.no_duplicates() ==> without(s, x).no_duplicates(),
    decreases s.len(),
{
    reveal(Seq::filter);
    if s.len() > 0 {
        let t = s.drop_last();
        let last = s.last();
        lemma_without(t, x);
        let ft = without(t, x);
        let fs = without(s, x);
        assert(fs == (if last != x {
            ft.push(last)
        } else {
            ft
        }));
        assert forall|y: u64| #[trigger] fs.contains(y) <==> (s.contains(y) && y != x) by {
            if s.contains(y) && y != x {
                let i = choose|i: int| 0 <= i < s.len() && s[i] == y;
                if i < s.len() - 1 {
                    assert(t[i] == y);
                    assert(t.contains(y));
                    assert(ft.contains(y));
                    let j = choose|j: int| 0 <= j < ft.len() && ft[j] == y;
                    assert(fs[j] == y);
                } else {
                    assert(fs[ft.len() as int] == y);
                }
            }
            if fs.contains(y) {
                let j = choose|j: int| 0 <= j < fs.len() && fs[j] == y;
                if j < ft.len() {
                    assert(ft[j] == y);
                    assert(ft.contains(y));
                    assert(t.contains(y));
                    let i = choose|i: int| 0 <= i < t.len() && t[i] == y;
                    assert(s[i] == y);
                } else {
                    assert(y == last && last != x);
                    assert(s[s.len() - 1] == y);
                }
            }
        }
        if s.no_duplicates() {
            assert(t.no_duplicates()) by {
                assert forall|i: int, j: int|
                    0 <= i < t.len() && 0 <= j < t.len() && i != j implies t[i] != t[j] by {
                    assert(s[i] == t[i] && s[j] == t[j]);
                }
            }
            if last != x {
                assert(!ft.contains(last)) by {
                    if ft.contains(last) {
                        assert(t.contains(last));
                        let i = choose|i: int| 0 <= i < t.len() && t[i] == last;
                        assert(s[i] == s[s.len() - 1]);
                    }
                }
                assert forall|i: int, j: int|
                    0 <= i < fs.len() && 0 <= j < fs.len() && i != j implies fs[i] != fs[j] by {
                    if i < ft.len() && j < ft.len() {
                    } else if i < ft.len() {
                        assert(ft.contains(ft[i]));
                    } else {
                        assert(ft.contains(ft[j]));
                    }
                }
            }
        }
    } else {
        assert(without(s, x) =~= s);
    }
}

/// Where the part of the state that the invariant speaks of is unchanged, so is the
/// invariant.
pub proof fn lemma_invariant_frame(v: AssetRegistryView, w: AssetRegistryView)
    requires
        registry_invariant(v),
        w.assets == v.assets,
        w.asset_count == v.asset_count,
        w.dedup == v.dedup,
        w.owner_index == v.owner_index,
        w.type_counts == v.type_counts,
    ensures
        registry_invariant(w),
{
    assert forall|t: Seq<char>| #[trigger] type_count(w, t) == assets_of_type(w.assets, t).len() by {
        assert(type_count(v, t) == assets_of_type(v.assets, t).len());
    }
    assert forall|t: Seq<char>| #[trigger] type_count(w, t) <= w.asset_count by {
        assert(type_count(v, t) <= v.asset_count);
    }
}

/// Adding an asset under a fresh id.
pub proof fn lemma_assets_of_type_insert(m: Map<u64, Asset>, id: u64, a: Asset, t: Seq<char>)
    requires
        m.dom().finite(),
        !m.contains_key(id),
    ensures
        assets_of_type(m.insert(id, a), t).len() == assets_of_type(m, t).len() + (if a.asset_type@
            == t {
            1int
        } else {
            0int
        }),
{
    let old_set = assets_of_type(m, t);
    let new_set = assets_of_type(m.insert(id, a), t);
    m.dom().lemma_len_filter(|i: u64| m[i].asset_type@ == t);
    if a.asset_type@ == t {
        assert(new_set =~= old_set.insert(id));
    } else {
        assert(new_set =~= old_set);
    }
}

/// Removing a registered asset.
pub proof fn lemma_assets_of_type_remove(m: Map<u64, Asset>, id: u64, t: Seq<char>)
    requires
        m.dom().finite(),
        m.contains_key(id),
    ensures
        assets_of_type(m.remove(id), t).len() == assets_of_type(m, t).len() - (if m[id].asset_type@
            == t {
            1int
        } else {
            0int
        }),
{
    let old_set = assets_of_type(m, t);
    let new_set = assets_of_type(m.remove(id), t);
    m.dom().lemma_len_filter(|i: u64| m[i].asset_type@ == t);
    if m[id].asset_type@ == t {
        assert(new_set =~= old_set.remove(id));
    } else {
        assert(new_set =~= old_set);
    }
}

/// Replacing a registered asset by one of the same type.
pub proof fn lemma_assets_of_type_same(m: Map<u64, Asset>, id: u64, a: Asset, t: Seq<char>)
    requires
        m.contains_key(id),
        m[id].asset_type@ == a.asset_type@,
    ensures
        assets_of_type(m.insert(id, a), t) == assets_of_type(m, t),
{
    assert(assets_of_type(m.insert(id, a), t) =~= assets_of_type(m, t));
}

// ---------------------------------------------------------------------------------------
// The effect of each entry point on the state
// ---------------------------------------------------------------------------------------

/// The asset that registering `metadata` of `asset_type` for `owner` under id `id` stores.
pub open spec fn new_asset(id: u64, asset_type: Symbol, metadata: String, owner: Address, now: u64) -> Asset {
    Asset {
        asset_id: id,
        asset_type: asset_type,
        metadata: metadata,
        owner: owner,
        registered_at: now,
        metadata_updated_at: now,
    }
}

/// Why a registration is refused, if it is.
pub open spec fn register_error(
    v: AssetRegistryView,
    asset_type: Seq<char>,
    metadata: Seq<char>,
    owner: Seq<char>,
) -> Option<ContractError> {
    if v.paused {
        Some(ContractError::Paused)
    } else if !type_allowed(v, asset_type) {
        Some(ContractError::InvalidAssetType)
    } else if v.dedup.contains_key((owner, metadata_sha256(metadata))) {
        Some(ContractError::DuplicateAsset)
    } else {
        None
    }
}

/// The state after a registration, the new asset taking the next id.
pub open spec fn register_effect(
    v: AssetRegistryView,
    asset_type: Symbol,
    metadata: String,
    owner: Address,
    now: u64,
) -> AssetRegistryView {
    let id = (v.asset_count + 1) as u64;
    AssetRegistryView {
        assets: v.assets.insert(id, new_asset(id, asset_type, metadata, owner, now)),
        asset_count: id,
        dedup: v.dedup.insert((owner@, metadata_sha256(metadata@)), id),
        owner_index: v.owner_index.insert(owner@, listed(v.owner_index, owner@).push(id)),
        type_counts: v.type_counts.insert(asset_type@, (type_count(v, asset_type@) + 1) as u64),
        events: v.events.push(
            RegistryEvent::AssetRegistered {
                asset_id: id,
                asset_type: asset_type,
                owner: owner,
                timestamp: now,
            },
        ),
        ..v
    }
}

/// A registration keeps the invariant.
pub proof fn lemma_register_effect(
    v: AssetRegistryView,
    asset_type: Symbol,
    metadata: String,
    owner: Address,
    now: u64,
)
    requires
        registry_invariant(v),
        !v.dedup.contains_key((owner@, metadata_sha256(metadata@))),
        v.asset_count < u64::MAX,
    ensures
        registry_invariant(register_effect(v, asset_type, metadata, owner, now)),
{
    let w = register_effect(v, asset_type, metadata, owner, now);
    let id = (v.asset_count + 1) as u64;
    let a = new_asset(id, asset_type, metadata, owner, now);
    assert(!v.assets.contains_key(id));
    assert forall|k: (Seq<char>, Seq<u8>)| #[trigger]
        w.dedup.contains_key(k) implies w.assets.contains_key(w.dedup[k]) && dedup_key_of(
            w.assets[w.dedup[k]],
        ) == k by {
        if k != (owner@, metadata_sha256(metadata@)) {
            assert(v.dedup.contains_key(k));
        }
    }
    assert forall|o: Seq<char>| #[trigger]
        w.owner_index.contains_key(o) implies w.owner_index[o].no_duplicates() by {
        if o == owner@ {
            let l = listed(v.owner_index, o);
            assert(!l.contains(id)) by {
                if l.contains(id) {
                    let i = choose|i: int| 0 <= i < l.len() && l[i] == id;
                    assert(v.owner_index[o][i] == id);
                }
            }
            let r = l.push(id);
            assert forall|i: int, j: int|
                0 <= i < r.len() && 0 <= j < r.len() && i != j implies r[i] != r[j] by {
                if i < l.len() && j < l.len() {
                    assert(v.owner_index[o][i] == l[i] && v.owner_index[o][j] == l[j]);
                } else if i < l.len() {
                    assert(l.contains(l[i]));
                } else {
                    assert(l.contains(l[j]));
                }
            }
        }
    }
    assert forall|o: Seq<char>, i: int|
        #![trigger w.owner_index[o][i]]
        w.owner_index.contains_key(o) && 0 <= i < w.owner_index[o].len() implies {
        &&& w.assets.contains_key(w.owner_index[o][i])
        &&& w.assets[w.owner_index[o][i]].owner@ == o
    } by {
        if o == owner@ {
            let l = listed(v.owner_index, o);
            if i < l.len() {
                assert(v.owner_index[o][i] == l[i]);
            }
        } else {
            assert(v.owner_index[o][i] == w.owner_index[o][i]);
        }
    }
    assert forall|x: u64| #[trigger]
        w.assets.contains_key(x) implies listed(w.owner_index, w.assets[x].owner@).contains(x) by {
        if x != id {
            let o = v.assets[x].owner@;
            let l = listed(v.owner_index, o);
            assert(l.contains(x));
            let i = choose|i: int| 0 <= i < l.len() && l[i] == x;
            if o == owner@ {
                assert(l.push(id)[i] == x);
            }
        } else {
            let l = listed(v.owner_index, owner@);
            assert(l.push(id)[l.len() as int] == id);
        }
    }
    assert forall|t: Seq<char>| #[trigger]
        type_count(w, t) == assets_of_type(w.assets, t).len() && type_count(w, t) <= w.asset_count by {
        lemma_assets_of_type_insert(v.assets, id, a, t);
        assert(type_count(v, t) == assets_of_type(v.assets, t).len());
        assert(type_count(v, t) <= v.asset_count);
    }
}


/// The owner index with `asset_id` filtered out of the list of `owner` (where there is one).
pub open spec fn remove_listed(index: Map<Seq<char>, Seq<u64>>, owner: Seq<char>, asset_id: u64) -> Map<
    Seq<char>,
    Seq<u64>,
> {
    if index.contains_key(owner) {
        index.insert(owner, without(index[owner], asset_id))
    } else {
        index
    }
}

/// The type counts with the count of `t` decremented (where it is positive).
pub open spec fn decremented(v: AssetRegistryView, t: Seq<char>) -> Map<Seq<char>, u64> {
    if type_count(v, t) > 0 {
        v.type_counts.insert(t, (type_count(v, t) - 1) as u64)
    } else {
        v.type_counts
    }
}

/// Why a deregistration is refused, if it is: the admin and the asset's owner may
/// deregister it.
pub open spec fn deregister_error(v: AssetRegistryView, caller: Seq<char>, asset_id: u64) -> Option<
    ContractError,
> {
    if v.paused {
        Some(ContractError::Paused)
    } else if !v.assets.contains_key(asset_id) {
        Some(ContractError::AssetNotFound)
    } else {
        match v.admin {
            None => Some(ContractError::NotInitialized),
            Some(a) => if caller == a || caller == v.assets[asset_id].owner@ {
                None
            } else {
                Some(ContractError::UnauthorizedOwner)
            },
        }
    }
}

/// Whether the id `j` names a registered asset under deduplication key `k`, other than
/// `skip`.
pub open spec fn holds_key(assets: Map<u64, Asset>, j: u64, k: (Seq<char>, Seq<u8>), skip: u64) -> bool {
    j != skip && assets.contains_key(j) && dedup_key_of(assets[j]) == k
}

/// The first id of `ids`, from position `i` on, that holds key `k` other than `skip`.
pub open spec fn first_holder(
    assets: Map<u64, Asset>,
    ids: Seq<u64>,
    k: (Seq<char>, Seq<u8>),
    skip: u64,
    i: int,
) -> Option<u64>
    decreases ids.len() - i,
{
    if i < 0 || i >= ids.len() {
        None
    } else if holds_key(assets, ids[i], k, skip) {
        Some(ids[i])
    } else {
        first_holder(assets, ids, k, skip, i + 1)
    }
}

/// The deduplication index once asset `asset_id` no longer holds key `k`: an entry that
/// names it passes to the owner's first other asset (in the owner index) that has the
/// same metadata digest, and goes where the owner has none.
pub open spec fn released(v: AssetRegistryView, k: (Seq<char>, Seq<u8>), asset_id: u64) -> Map<
    (Seq<char>, Seq<u8>),
    u64,
> {
    if v.dedup.contains_key(k) && v.dedup[k] == asset_id {
        match first_holder(v.assets, listed(v.owner_index, k.0), k, asset_id, 0) {
            Some(j) => v.dedup.insert(k, j),
            None => v.dedup.remove(k),
        }
    } else {
        v.dedup
    }
}

/// The first holder found is a holder of the key listed from `i` on, and none is found
/// exactly where none is listed.
pub proof fn lemma_first_holder(
    assets: Map<u64, Asset>,
    ids: Seq<u64>,
    k: (Seq<char>, Seq<u8>),
    skip: u64,
    i: int,
)
    requires
        0 <= i,
    ensures
        first_holder(assets, ids, k, skip, i) matches Some(j) ==> holds_key(assets, j, k, skip),
        first_holder(assets, ids, k, skip, i) is None <==> forall|p: int|
            i <= p < ids.len() ==> !holds_key(assets, #[trigger] ids[p], k, skip),
    decreases ids.len() - i,
{
    if i < ids.len() && !holds_key(assets, ids[i], k, skip) {
        lemma_first_holder(assets, ids, k, skip, i + 1);
        assert forall|p: int| i <= p < ids.len() && forall|q: int|
            i + 1 <= q < ids.len() ==> !holds_key(assets, #[trigger] ids[q], k, skip) implies !holds_key(
            assets,
            ids[p],
            k,
            skip,
        ) by {
            if p > i {
                assert(!holds_key(assets, ids[p], k, skip));
            }
        }
    }
}

/// Once asset `asset_id` releases its key, every entry of the index names another
/// registered asset that holds the entry's key, and every other asset keeps an entry.
pub proof fn lemma_released(v: AssetRegistryView, asset_id: u64)
    requires
        registry_invariant(v),
        v.assets.contains_key(asset_id),
    ensures
        ({
            let r = released(v, dedup_key_of(v.assets[asset_id]), asset_id);
            &&& forall|key: (Seq<char>, Seq<u8>)| #[trigger]
                r.contains_key(key) ==> r[key] != asset_id && v.assets.contains_key(r[key])
                    && dedup_key_of(v.assets[r[key]]) == key
            &&& forall|j: u64| #[trigger]
                v.assets.contains_key(j) && j != asset_id ==> r.contains_key(dedup_key_of(v.assets[j]))
        }),
{
    let k = dedup_key_of(v.assets[asset_id]);
    let ids = listed(v.owner_index, k.0);
    lemma_first_holder(v.assets, ids, k, asset_id, 0);
    let r = released(v, k, asset_id);
    assert forall|j: u64| #[trigger]
        v.assets.contains_key(j) && j != asset_id implies r.contains_key(dedup_key_of(v.assets[j])) by {
        assert(v.dedup.contains_key(dedup_key_of(v.assets[j])));
        if dedup_key_of(v.assets[j]) == k && v.dedup[k] == asset_id {
            assert(ids.contains(j));
            let p = choose|p: int| 0 <= p < ids.len() && ids[p] == j;
            assert(holds_key(v.assets, ids[p], k, asset_id));
        }
    }
    assert forall|key: (Seq<char>, Seq<u8>)| #[trigger]
        r.contains_key(key) implies r[key] != asset_id && v.assets.contains_key(r[key])
        && dedup_key_of(v.assets[r[key]]) == key by {
        assert(v.dedup.contains_key(key));
        if key != k && v.dedup[key] == asset_id {
            assert(dedup_key_of(v.assets[v.dedup[key]]) == key);
        }
    }
}

/// The state after asset `asset_id` is deregistered.
pub open spec fn deregister_effect(v: AssetRegistryView, asset_id: u64) -> AssetRegistryView {
    let a = v.assets[asset_id];
    AssetRegistryView {
        assets: v.assets.remove(asset_id),
        dedup: released(v, dedup_key_of(a), asset_id),
        owner_index: remove_listed(v.owner_index, a.owner@, asset_id),
        type_counts: decremented(v, a.asset_type@),
        events: v.events.push(
            RegistryEvent::AssetDeregistered {
                asset_id: asset_id,
                asset_type: a.asset_type,
                owner: a.owner,
            },
        ),
        ..v
    }
}

/// Why a metadata update is refused, if it is.
pub open spec fn update_metadata_error(
    v: AssetRegistryView,
    asset_id: u64,
    owner: Seq<char>,
    new_metadata: Seq<char>,
) -> Option<ContractError> {
    if v.paused {
        Some(ContractError::Paused)
    } else if !v.assets.contains_key(asset_id) {
        Some(ContractError::AssetNotFound)
    } else if v.assets[asset_id].owner@ != owner {
        Some(ContractError::UnauthorizedOwner)
    } else if new_metadata == v.assets[asset_id].metadata@ {
        None
    } else if v.dedup.remove(dedup_key_of(v.assets[asset_id])).contains_key(
        (owner, metadata_sha256(new_metadata)),
    ) {
        Some(ContractError::DuplicateAsset)
    } else {
        None
    }
}

/// The state after the metadata of asset `asset_id` is replaced; identical metadata
/// changes nothing.
pub open spec fn update_metadata_effect(
    v: AssetRegistryView,
    asset_id: u64,
    owner: Address,
    new_metadata: String,
    now: u64,
) -> AssetRegistryView {
    let a = v.assets[asset_id];
    if new_metadata@ == a.metadata@ {
        v
    } else {
        AssetRegistryView {
            assets: v.assets.insert(
                asset_id,
                Asset { metadata: new_metadata, metadata_updated_at: now, ..a },
            ),
            dedup: released(v, dedup_key_of(a), asset_id).insert(
                (owner@, metadata_sha256(new_metadata@)),
                asset_id,
            ),
            events: v.events.push(
                RegistryEvent::MetadataUpdated {
                    asset_id: asset_id,
                    owner: owner,
                    metadata: new_metadata,
                    timestamp: now,
                },
            ),
            ..v
        }
    }
}

/// Why a transfer is refused, if it is.
pub open spec fn transfer_error(
    v: AssetRegistryView,
    asset_id: u64,
    current_owner: Seq<char>,
    new_owner: Seq<char>,
) -> Option<ContractError> {
    if v.paused {
        Some(ContractError::Paused)
    } else if !v.assets.contains_key(asset_id) {
        Some(ContractError::AssetNotFound)
    } else if v.assets[asset_id].owner@ != current_owner {
        Some(ContractError::UnauthorizedOwner)
    } else {
        None
    }
}

/// The state after asset `asset_id` passes from `current_owner` to `new_owner`; the new
/// owner's deduplication entry for the asset's metadata names the asset, even where the
/// new owner already held an asset with the same metadata.
pub open spec fn transfer_effect(
    v: AssetRegistryView,
    asset_id: u64,
    current_owner: Address,
    new_owner: Address,
    now: u64,
) -> AssetRegistryView {
    let a = v.assets[asset_id];
    let d = metadata_sha256(a.metadata@);
    let index = remove_listed(v.owner_index, current_owner@, asset_id);
    AssetRegistryView {
        assets: v.assets.insert(asset_id, Asset { owner: new_owner, ..a }),
        dedup: released(v, (current_owner@, d), asset_id).insert((new_owner@, d), asset_id),
        owner_index: index.insert(new_owner@, listed(index, new_owner@).push(asset_id)),
        events: v.events.push(
            RegistryEvent::AssetTransferred {
                asset_id: asset_id,
                from: current_owner,
                to: new_owner,
                timestamp: now,
            },
        ),
        ..v
    }
}

/// A deregistration keeps the invariant.
pub proof fn lemma_deregister_effect(v: AssetRegistryView, asset_id: u64)
    requires
        registry_invariant(v),
        v.assets.contains_key(asset_id),
    ensures
        registry_invariant(deregister_effect(v, asset_id)),
{
    let w = deregister_effect(v, asset_id);
    let a = v.assets[asset_id];
    let ow = a.owner@;
    assert(listed(v.owner_index, ow).contains(asset_id));
    assert(v.owner_index.contains_key(ow));
    lemma_without(v.owner_index[ow], asset_id);
    lemma_released(v, asset_id);
    assert forall|k: (Seq<char>, Seq<u8>)| #[trigger]
        w.dedup.contains_key(k) implies w.assets.contains_key(w.dedup[k]) && dedup_key_of(
            w.assets[w.dedup[k]],
        ) == k by {}
    assert forall|x: u64| #[trigger]
        w.assets.contains_key(x) implies w.dedup.contains_key(dedup_key_of(w.assets[x])) by {
        assert(v.assets.contains_key(x) && x != asset_id);
    }
    assert forall|o: Seq<char>| #[trigger]
        w.owner_index.contains_key(o) implies w.owner_index[o].no_duplicates() by {
        assert(v.owner_index[o].no_duplicates());
    }
    assert forall|o: Seq<char>, i: int|
        #![trigger w.owner_index[o][i]]
        w.owner_index.contains_key(o) && 0 <= i < w.owner_index[o].len() implies {
        &&& w.assets.contains_key(w.owner_index[o][i])
        &&& w.assets[w.owner_index[o][i]].owner@ == o
    } by {
        let y = w.owner_index[o][i];
        if o == ow {
            assert(without(v.owner_index[ow], asset_id).contains(y));
            assert(v.owner_index[ow].contains(y));
            let j = choose|j: int| 0 <= j < v.owner_index[ow].len() && v.owner_index[ow][j] == y;
            assert(v.owner_index[o][j] == y);
        } else {
            assert(v.owner_index[o][i] == y);
            assert(v.assets[y].owner@ == o);
        }
    }
    assert forall|x: u64| #[trigger]
        w.assets.contains_key(x) implies listed(w.owner_index, w.assets[x].owner@).contains(x) by {
        assert(listed(v.owner_index, v.assets[x].owner@).contains(x));
    }
    assert forall|t: Seq<char>| #[trigger]
        type_count(w, t) == assets_of_type(w.assets, t).len() && type_count(w, t) <= w.asset_count by {
        lemma_assets_of_type_remove(v.assets, asset_id, t);
        assert(type_count(v, t) == assets_of_type(v.assets, t).len());
        assert(type_count(v, t) <= v.asset_count);
        if t == a.asset_type@ {
            assert(assets_of_type(v.assets, t).contains(asset_id));
            v.assets.dom().lemma_len_filter(|i: u64| v.assets[i].asset_type@ == t);
        }
    }
}

/// A metadata update keeps the invariant.
pub proof fn lemma_update_metadata_effect(
    v: AssetRegistryView,
    asset_id: u64,
    owner: Address,
    new_metadata: String,
    now: u64,
)
    requires
        registry_invariant(v),
        update_metadata_error(v, asset_id, owner@, new_metadata@) is None,
        !v.paused,
        v.assets.contains_key(asset_id),
    ensures
        registry_invariant(update_metadata_effect(v, asset_id, owner, new_metadata, now)),
{
    let a = v.assets[asset_id];
    if new_metadata@ != a.metadata@ {
        let w = update_metadata_effect(v, asset_id, owner, new_metadata, now);
        let na = Asset { metadata: new_metadata, metadata_updated_at: now, ..a };
        assert(w.assets == v.assets.insert(asset_id, na));
        lemma_released(v, asset_id);
        let r = released(v, dedup_key_of(a), asset_id);
        assert forall|k: (Seq<char>, Seq<u8>)| #[trigger]
            w.dedup.contains_key(k) implies w.assets.contains_key(w.dedup[k]) && dedup_key_of(
                w.assets[w.dedup[k]],
            ) == k by {
            if k != (owner@, metadata_sha256(new_metadata@)) {
                assert(r.contains_key(k));
            }
        }
        assert forall|x: u64| #[trigger]
            w.assets.contains_key(x) implies w.dedup.contains_key(dedup_key_of(w.assets[x])) by {
            if x != asset_id {
                assert(r.contains_key(dedup_key_of(v.assets[x])));
            }
        }
        assert forall|o: Seq<char>, i: int|
            #![trigger w.owner_index[o][i]]
            w.owner_index.contains_key(o) && 0 <= i < w.owner_index[o].len() implies {
            &&& w.assets.contains_key(w.owner_index[o][i])
            &&& w.assets[w.owner_index[o][i]].owner@ == o
        } by {
            assert(v.assets.contains_key(v.owner_index[o][i]));
        }
        assert forall|x: u64| #[trigger]
            w.assets.contains_key(x) implies listed(w.owner_index, w.assets[x].owner@).contains(x) by {
            assert(listed(v.owner_index, v.assets[x].owner@).contains(x));
        }
        assert forall|t: Seq<char>| #[trigger]
            type_count(w, t) == assets_of_type(w.assets, t).len() && type_count(w, t) <= w.asset_count by {
            lemma_assets_of_type_same(v.assets, asset_id, na, t);
            assert(type_count(v, t) == assets_of_type(v.assets, t).len());
            assert(type_count(v, t) <= v.asset_count);
        }
    }
}

/// A transfer keeps the invariant.
pub proof fn lemma_transfer_effect(
    v: AssetRegistryView,
    asset_id: u64,
    current_owner: Address,
    new_owner: Address,
    now: u64,
)
    requires
        registry_invariant(v),
        transfer_error(v, asset_id, current_owner@, new_owner@) is None,
    ensures
        registry_invariant(transfer_effect(v, asset_id, current_owner, new_owner, now)),
{
    let w = transfer_effect(v, asset_id, current_owner, new_owner, now);
    let a = v.assets[asset_id];
    let na = Asset { owner: new_owner, ..a };
    let cur = current_owner@;
    let nw = new_owner@;
    let index = remove_listed(v.owner_index, cur, asset_id);
    assert(listed(v.owner_index, cur).contains(asset_id));
    assert(v.owner_index.contains_key(cur));
    lemma_without(v.owner_index[cur], asset_id);
    // what the removal leaves: lists without the transferred asset
    assert forall|o: Seq<char>, i: int|
        #![trigger index[o][i]]
        index.contains_key(o) && 0 <= i < index[o].len() implies {
        &&& index[o][i] != asset_id
        &&& v.assets.contains_key(index[o][i])
        &&& v.assets[index[o][i]].owner@ == o
    } by {
        let y = index[o][i];
        if o == cur {
            assert(without(v.owner_index[cur], asset_id).contains(y));
            assert(v.owner_index[cur].contains(y));
            let j = choose|j: int| 0 <= j < v.owner_index[cur].len() && v.owner_index[cur][j] == y;
            assert(v.owner_index[o][j] == y);
        } else {
            assert(v.owner_index[o][i] == y);
        }
    }
    assert forall|o: Seq<char>| #[trigger] index.contains_key(o) implies index[o].no_duplicates() by {
        assert(v.owner_index[o].no_duplicates());
    }
    let l1 = listed(index, nw);
    assert(!l1.contains(asset_id)) by {
        if l1.contains(asset_id) {
            let i = choose|i: int| 0 <= i < l1.len() && l1[i] == asset_id;
            assert(index[nw][i] == asset_id);
        }
    }
    lemma_released(v, asset_id);
    let r = released(v, dedup_key_of(a), asset_id);
    assert((cur, metadata_sha256(a.metadata@)) == dedup_key_of(a));
    assert forall|k: (Seq<char>, Seq<u8>)| #[trigger]
        w.dedup.contains_key(k) implies w.assets.contains_key(w.dedup[k]) && dedup_key_of(
            w.assets[w.dedup[k]],
        ) == k by {
        if k != (nw, metadata_sha256(a.metadata@)) {
            assert(r.contains_key(k));
        }
    }
    assert forall|x: u64| #[trigger]
        w.assets.contains_key(x) implies w.dedup.contains_key(dedup_key_of(w.assets[x])) by {
        if x != asset_id {
            assert(r.contains_key(dedup_key_of(v.assets[x])));
        }
    }
    assert forall|o: Seq<char>| #[trigger]
        w.owner_index.contains_key(o) implies w.owner_index[o].no_duplicates() by {
        if o == nw {
            let r = l1.push(asset_id);
            assert forall|i: int, j: int|
                0 <= i < r.len() && 0 <= j < r.len() && i != j implies r[i] != r[j] by {
                if i < l1.len() && j < l1.len() {
                    assert(index[o][i] == l1[i] && index[o][j] == l1[j]);
                } else if i < l1.len() {
                    assert(l1.contains(l1[i]));
                } else {
                    assert(l1.contains(l1[j]));
                }
            }
        }
    }
    assert forall|o: Seq<char>, i: int|
        #![trigger w.owner_index[o][i]]
        w.owner_index.contains_key(o) && 0 <= i < w.owner_index[o].len() implies {
        &&& w.assets.contains_key(w.owner_index[o][i])
        &&& w.assets[w.owner_index[o][i]].owner@ == o
    } by {
        if o == nw {
            if i < l1.len() {
                assert(index[o][i] == l1[i]);
            }
        } else {
            assert(index[o][i] == w.owner_index[o][i]);
        }
    }
    assert forall|x: u64| #[trigger]
        w.assets.contains_key(x) implies listed(w.owner_index, w.assets[x].owner@).contains(x) by {
        if x == asset_id {
            assert(l1.push(asset_id)[l1.len() as int] == asset_id);
        } else {
            let o = v.assets[x].owner@;
            assert(listed(v.owner_index, o).contains(x));
            assert(listed(index, o).contains(x)) by {
                if o == cur {
                    assert(without(v.owner_index[cur], asset_id).contains(x));
                }
            }
            if o == nw {
                let i = choose|i: int| 0 <= i < l1.len() && l1[i] == x;
                assert(l1.push(asset_id)[i] == x);
            }
        }
    }
    assert forall|t: Seq<char>| #[trigger]
        type_count(w, t) == assets_of_type(w.assets, t).len() && type_count(w, t) <= w.asset_count by {
        lemma_assets_of_type_same(v.assets, asset_id, na, t);
        assert(type_count(v, t) == assets_of_type(v.assets, t).len());
        assert(type_count(v, t) <= v.asset_count);
    }
}


/// What is wrong with item `i` of a batch for `owner`, if anything: its type is not on
/// the allowlist, or its metadata is already registered for the owner or comes earlier
/// in the batch.
pub open spec fn batch_item_error(
    v: AssetRegistryView,
    owner: Seq<char>,
    assets: Seq<AssetInput>,
    i: int,
) -> Option<ContractError> {
    let d = metadata_sha256(assets[i].metadata@);
    if !type_allowed(v, assets[i].asset_type@) {
        Some(ContractError::InvalidAssetType)
    } else if v.dedup.contains_key((owner, d)) || exists|j: int|
        0 <= j < i && #[trigger] metadata_sha256(assets[j].metadata@) == d {
        Some(ContractError::DuplicateAsset)
    } else {
        None
    }
}

/// The first faulty item of a batch from item `i` on, or the batch's length where there
/// is none.
pub open spec fn batch_fault_from(
    v: AssetRegistryView,
    owner: Seq<char>,
    assets: Seq<AssetInput>,
    i: int,
) -> int
    decreases assets.len() - i,
{
    if i < 0 || i >= assets.len() {
        assets.len() as int
    } else if batch_item_error(v, owner, assets, i) is Some {
        i
    } else {
        batch_fault_from(v, owner, assets, i + 1)
    }
}

/// Why a batch registration is refused, if it is.
pub open spec fn batch_error(v: AssetRegistryView, owner: Seq<char>, assets: Seq<AssetInput>) -> Option<
    ContractError,
> {
    if v.paused {
        Some(ContractError::Paused)
    } else if batch_fault_from(v, owner, assets, 0) < assets.len() {
        batch_item_error(v, owner, assets, batch_fault_from(v, owner, assets, 0))
    } else {
        None
    }
}

/// The state after the first `n` items of a batch are registered one after the other.
pub open spec fn batch_effect(
    v: AssetRegistryView,
    owner: Address,
    assets: Seq<AssetInput>,
    now: u64,
    n: nat,
) -> AssetRegistryView
    decreases n,
{
    if n == 0 {
        v
    } else {
        register_effect(
            batch_effect(v, owner, assets, now, (n - 1) as nat),
            assets[n - 1].asset_type,
            assets[n - 1].metadata,
            owner,
            now,
        )
    }
}

/// Whether `e` announces the batch registration of `ids` for `owner` at `now`.
pub open spec fn is_batch_event(e: RegistryEvent, owner: Address, ids: Seq<u64>, now: u64) -> bool {
    match e {
        RegistryEvent::BatchRegistered { owner: o, asset_ids, timestamp } => o == owner
            && asset_ids@ == ids && timestamp == now,
        _ => false,
    }
}

/// Whether `w` is `effect` with, where `ids` is not empty, the batch event published last.
pub open spec fn batch_published(
    w: AssetRegistryView,
    effect: AssetRegistryView,
    owner: Address,
    ids: Seq<u64>,
    now: u64,
) -> bool {
    if ids.len() == 0 {
        w == effect
    } else {
        &&& w == (AssetRegistryView { events: w.events, ..effect })
        &&& w.events.len() == effect.events.len() + 1
        &&& w.events.drop_last() == effect.events
        &&& is_batch_event(w.events.last(), owner, ids, now)
    }
}

/// The ids `first`, `first + 1`, ... of a batch of `n` assets.
pub open spec fn consecutive_ids(first: int, n: nat) -> Seq<u64> {
    Seq::new(n, |j: int| (first + j) as u64)
}

/// The first faulty item of a batch is faulty.
pub proof fn lemma_fault_is_fault(v: AssetRegistryView, owner: Seq<char>, assets: Seq<AssetInput>, i: int)
    requires
        0 <= i,
    ensures
        batch_fault_from(v, owner, assets, i) <= assets.len(),
        batch_fault_from(v, owner, assets, i) < assets.len() ==> batch_item_error(
            v,
            owner,
            assets,
            batch_fault_from(v, owner, assets, i),
        ) is Some,
    decreases assets.len() - i,
{
    if i < assets.len() && batch_item_error(v, owner, assets, i) is None {
        lemma_fault_is_fault(v, owner, assets, i + 1);
    }
}

/// Past its first faulty item, a batch has none.
pub proof fn lemma_no_fault(
    v: AssetRegistryView,
    owner: Seq<char>,
    assets: Seq<AssetInput>,
    i: int,
    k: int,
)
    requires
        0 <= i <= k < assets.len(),
        batch_fault_from(v, owner, assets, i) == assets.len(),
    ensures
        batch_item_error(v, owner, assets, k) is None,
    decreases k - i,
{
    if i < k {
        lemma_no_fault(v, owner, assets, i + 1, k);
    }
}

/// Registering the first `n` items of a batch without faults: the ids handed out, and
/// the deduplication entries added.
pub proof fn lemma_batch_effect(
    v: AssetRegistryView,
    owner: Address,
    assets: Seq<AssetInput>,
    now: u64,
    n: nat,
)
    requires
        registry_invariant(v),
        n <= assets.len(),
        v.asset_count + n <= u64::MAX,
        forall|k: int| 0 <= k < n ==> #[trigger] batch_item_error(v, owner@, assets, k) is None,
    ensures
        registry_invariant(batch_effect(v, owner, assets, now, n)),
        batch_effect(v, owner, assets, now, n).asset_count == v.asset_count + n,
        batch_effect(v, owner, assets, now, n).asset_types == v.asset_types,
        forall|key: (Seq<char>, Seq<u8>)| #[trigger]
            batch_effect(v, owner, assets, now, n).dedup.contains_key(key) <==> (
            v.dedup.contains_key(key) || exists|j: int|
                0 <= j < n && key == (owner@, #[trigger] metadata_sha256(assets[j].metadata@))),
    decreases n,
{
    if n > 0 {
        let m = (n - 1) as nat;
        lemma_batch_effect(v, owner, assets, now, m);
        let w = batch_effect(v, owner, assets, now, m);
        let d = metadata_sha256(assets[m as int].metadata@);
        assert(batch_item_error(v, owner@, assets, m as int) is None);
        assert(!w.dedup.contains_key((owner@, d))) by {
            if w.dedup.contains_key((owner@, d)) {
                if !v.dedup.contains_key((owner@, d)) {
                    let j = choose|j: int|
                        0 <= j < m && (owner@, d) == (owner@, #[trigger] metadata_sha256(
                            assets[j].metadata@,
                        ));
                    assert(metadata_sha256(assets[j].metadata@) == d);
                }
            }
        }
        lemma_register_effect(w, assets[m as int].asset_type, assets[m as int].metadata, owner, now);
        let e = batch_effect(v, owner, assets, now, n);
        assert forall|key: (Seq<char>, Seq<u8>)| #[trigger]
            e.dedup.contains_key(key) <==> (v.dedup.contains_key(key) || exists|j: int|
                0 <= j < n && key == (owner@, #[trigger] metadata_sha256(assets[j].metadata@))) by {
            if key == (owner@, d) {
                assert(key == (owner@, metadata_sha256(assets[m as int].metadata@)));
            } else {
                assert(e.dedup.contains_key(key) == w.dedup.contains_key(key));
                if exists|j: int|
                    0 <= j < n && key == (owner@, #[trigger] metadata_sha256(assets[j].metadata@)) {
                    let j = choose|j: int|
                        0 <= j < n && key == (owner@, #[trigger] metadata_sha256(
                            assets[j].metadata@,
                        ));
                    assert(j < m);
                }
            }
        }
    }
}

impl AssetRegistry {
    /// The invariant of a registry state.
    pub open spec fn wf(&self) -> bool {
        registry_invariant(self@)
    }

    /// A freshly deployed registry: no admin, no asset types, no assets.
    pub fn new() -> (r: Self)
        ensures
            r.wf(),
            r@.assets == Map::<u64, Asset>::empty(),
            r@.asset_count == 0,
            r@.dedup == Map::<(Seq<char>, Seq<u8>), u64>::empty(),
            r@.owner_index == Map::<Seq<char>, Seq<u64>>::empty(),
            r@.asset_types == Map::<Seq<char>, bool>::empty(),
            r@.type_counts == Map::<Seq<char>, u64>::empty(),
            r@.admin is None,
            r@.pending_admin is None,
            !r@.paused,
            r@.events == Seq::<RegistryEvent>::empty(),
    {
        let r = AssetRegistry {
            assets: Table::new(),
            asset_count: 0,
            dedup: Table::new(),
            owner_index: Table::new(),
            asset_types: Table::new(),
            type_counts: Table::new(),
            admin: None,
            pending_admin: None,
            paused: false,
            events: Vec::new(),
        };
        assert(r@.owner_index =~= Map::<Seq<char>, Seq<u64>>::empty());
        assert forall|t: Seq<char>| #[trigger]
            type_count(r@, t) == assets_of_type(r@.assets, t).len() && type_count(r@, t) <= r@.asset_count by {
            assert(assets_of_type(r@.assets, t) =~= Set::empty());
        }
        r
    }

    /// Everything the registry has published, oldest first.
    pub fn events(&self) -> (r: &Vec<RegistryEvent>)
        ensures
            r@ == self@.events,
    {
        &self.events
    }

    /// Whether the registry is paused.
    pub fn is_paused(&self) -> (r: bool)
        ensures
            r == self@.paused,
    {
        self.paused
    }

    /// Whether `asset_type` is on the allowlist.
    pub fn is_valid_asset_type(&self, asset_type: &Symbol) -> (r: bool)
        ensures
            r == type_allowed(self@, asset_type@),
    {
        match self.asset_types.get(asset_type) {
            Some(allowed) => *allowed,
            None => false,
        }
    }

    /// The last asset id handed out, which is the number of registrations so far.
    pub fn asset_count(&self) -> (r: u64)
        ensures
            r == self@.asset_count,
    {
        self.asset_count
    }

    /// Whether an asset with this id is registered.
    pub fn asset_exists(&self, asset_id: u64) -> (r: bool)
        ensures
            r == self@.assets.contains_key(asset_id),
    {
        self.assets.contains_key(&asset_id)
    }

    /// The asset with this id.
    pub fn get_asset(&self, asset_id: u64) -> (r: Result<Asset, ContractError>)
        ensures
            match r {
                Ok(a) => self@.assets.contains_key(asset_id) && a == self@.assets[asset_id],
                Err(e) => !self@.assets.contains_key(asset_id) && e == ContractError::AssetNotFound,
            },
    {
        match self.assets.get(&asset_id) {
            Some(a) => Ok(a.duplicate()),
            None => Err(ContractError::AssetNotFound),
        }
    }

    /// The ids of the assets listed under `owner`, in the order they were listed.
    pub fn get_assets_by_owner(&self, owner: &Address) -> (r: Vec<u64>)
        ensures
            r@ == listed(self@.owner_index, owner@),
    {
        match self.owner_index.get(owner) {
            Some(ids) => copy_all(ids),
            None => Vec::new(),
        }
    }

    /// A page of the ids listed under `owner`.
    pub fn get_assets_by_owner_page(&self, owner: &Address, offset: u32, limit: u32) -> (r: Vec<
        u64,
    >)
        requires
            page_fits(listed(self@.owner_index, owner@).len() as int, offset, limit),
        ensures
            r@ == page_spec(listed(self@.owner_index, owner@), offset as int, limit as int),
    {
        match self.owner_index.get(owner) {
            Some(ids) => page(ids, offset, limit),
            None => {
                let empty: Vec<u64> = Vec::new();
                page(&empty, offset, limit)
            },
        }
    }

    /// The admin address.
    pub fn get_admin(&self) -> (r: Result<Address, ContractError>)
        ensures
            match r {
                Ok(a) => self@.admin == Some(a@),
                Err(e) => self@.admin is None && e == ContractError::NotInitialized,
            },
    {
        match &self.admin {
            Some(a) => Ok(a.clone()),
            None => Err(ContractError::NotInitialized),
        }
    }

    /// Sets the admin, once.
    pub fn initialize_admin(&mut self, admin: Address) -> (r: Result<(), ContractError>)
        requires
            old(self).wf(),
        ensures
            final(self).wf(),
            match r {
                Ok(_) => old(self)@.admin is None && final(self)@ == (AssetRegistryView {
                    admin: Some(admin@),
                    ..old(self)@
                }),
                Err(e) => old(self)@.admin is Some && e == ContractError::AdminAlreadyInitialized
                    && final(self)@ == old(self)@,
            },
    {
        if self.admin.is_some() {
            return Err(ContractError::AdminAlreadyInitialized);
        }
        self.admin = Some(admin);
        proof {
            lemma_invariant_frame(old(self)@, self@);
        }
        Ok(())
    }

    /// Checks that `admin` is the stored admin.
    fn check_admin(&self, admin: &Address) -> (r: Result<(), ContractError>)
        ensures
            match r {
                Ok(_) => self@.admin == Some(admin@),
                Err(e) => admin_error(self@, admin@) == Some(e),
            },
    {
        match &self.admin {
            Some(a) => {
                if *a == *admin {
                    Ok(())
                } else {
                    Err(ContractError::UnauthorizedAdmin)
                }
            },
            None => Err(ContractError::NotInitialized),
        }
    }

    /// Proposes `new_admin` as the next admin (first step of the hand-over).
    pub fn propose_admin(&mut self, admin: Address, new_admin: Address) -> (r: Result<
        (),
        ContractError,
    >)
        requires
            old(self).wf(),
        ensures
            final(self).wf(),
            match r {
                Ok(_) => propose_admin_error(old(self)@, admin@) is None && final(self)@
                    == (AssetRegistryView {
                    pending_admin: Some(new_admin@),
                    events: old(self)@.events.push(
                        RegistryEvent::AdminProposed { admin: admin, new_admin: new_admin },
                    ),
                    ..old(self)@
                }),
                Err(e) => propose_admin_error(old(self)@, admin@) == Some(e) && final(self)@
                    == old(self)@,
            },
    {
        if let Err(e) = self.check_admin(&admin) {
            return Err(e);
        }
        if self.pending_admin.is_some() {
            return Err(ContractError::PendingAdminAlreadyExists);
        }
        self.pending_admin = Some(new_admin.clone());
        self.events.push(RegistryEvent::AdminProposed { admin, new_admin });
        proof {
            lemma_invariant_frame(old(self)@, self@);
        }
        Ok(())
    }

    /// The proposed admin takes over (second step of the hand-over).
    pub fn accept_admin(&mut self, new_admin: Address) -> (r: Result<(), ContractError>)
        requires
            old(self).wf(),
        ensures
            final(self).wf(),
            match r {
                Ok(_) => old(self)@.pending_admin == Some(new_admin@) && final(self)@
                    == (AssetRegistryView {
                    admin: Some(new_admin@),
                    pending_admin: None,
                    ..old(self)@
                }),
                Err(e) => final(self)@ == old(self)@ && match old(self)@.pending_admin {
                    None => e == ContractError::NotInitialized,
                    Some(p) => p != new_admin@ && e == ContractError::UnauthorizedAdmin,
                },
            },
    {
        match &self.pending_admin {
            None => Err(ContractError::NotInitialized),
            Some(p) => {
                if *p != new_admin {
                    Err(ContractError::UnauthorizedAdmin)
                } else {
                    self.admin = Some(new_admin);
                    self.pending_admin = None;
                    proof {
                        lemma_invariant_frame(old(self)@, self@);
                    }
                    Ok(())
                }
            },
        }
    }

    /// Pauses the registry.
    pub fn pause(&mut self, admin: &Address) -> (r: Result<(), ContractError>)
        requires
            old(self).wf(),
        ensures
            final(self).wf(),
            match r {
                Ok(_) => admin_error(old(self)@, admin@) is None && final(self)@
                    == (AssetRegistryView { paused: true, ..old(self)@ }),
                Err(e) => admin_error(old(self)@, admin@) == Some(e) && final(self)@ == old(self)@,
            },
    {
        self.check_admin(admin)?;
        self.paused = true;
        proof {
            lemma_invariant_frame(old(self)@, self@);
        }
        Ok(())
    }

    /// Lifts a pause.
    pub fn unpause(&mut self, admin: &Address) -> (r: Result<(), ContractError>)
        requires
            old(self).wf(),
        ensures
            final(self).wf(),
            match r {
                Ok(_) => admin_error(old(self)@, admin@) is None && final(self)@
                    == (AssetRegistryView { paused: false, ..old(self)@ }),
                Err(e) => admin_error(old(self)@, admin@) == Some(e) && final(self)@ == old(self)@,
            },
    {
        self.check_admin(admin)?;
        self.paused = false;
        proof {
            lemma_invariant_frame(old(self)@, self@);
        }
        Ok(())
    }

    /// Records an upgrade of the contract code to `new_wasm_hash`; the deployment of the
    /// new code is the host's.
    pub fn upgrade(&mut self, admin: &Address, new_wasm_hash: [u8; 32]) -> (r: Result<
        (),
        ContractError,
    >)
        requires
            old(self).wf(),
        ensures
            final(self).wf(),
            match r {
                Ok(_) => !old(self)@.paused && admin_error(old(self)@, admin@) is None
                    && final(self)@ == (AssetRegistryView {
                    events: old(self)@.events.push(
                        RegistryEvent::Upgraded { admin: *admin, wasm_hash: new_wasm_hash },
                    ),
                    ..old(self)@
                }),
                Err(e) => final(self)@ == old(self)@ && if old(self)@.paused {
                    e == ContractError::Paused
                } else {
                    admin_error(old(self)@, admin@) == Some(e)
                },
            },
    {
        if self.paused {
            return Err(ContractError::Paused);
        }
        self.check_admin(admin)?;
        self.events.push(RegistryEvent::Upgraded { admin: admin.clone(), wasm_hash: new_wasm_hash });
        proof {
            lemma_invariant_frame(old(self)@, self@);
        }
        Ok(())
    }

    /// Puts `asset_type` on the allowlist.
    pub fn add_asset_type(&mut self, admin: &Address, asset_type: Symbol) -> (r: Result<
        (),
        ContractError,
    >)
        requires
            old(self).wf(),
        ensures
            final(self).wf(),
            match r {
                Ok(_) => admin_error(old(self)@, admin@) is None && final(self)@
                    == (AssetRegistryView {
                    asset_types: old(self)@.asset_types.insert(asset_type@, true),
                    events: old(self)@.events.push(
                        RegistryEvent::AssetTypeAdded { asset_type: asset_type },
                    ),
                    ..old(self)@
                }),
                Err(e) => admin_error(old(self)@, admin@) == Some(e) && final(self)@ == old(self)@,
            },
    {
        self.check_admin(admin)?;
        let key = asset_type.clone();
        self.asset_types.insert(key, true);
        self.events.push(RegistryEvent::AssetTypeAdded { asset_type });
        proof {
            lemma_invariant_frame(old(self)@, self@);
        }
        Ok(())
    }

    /// Takes `asset_type` off the allowlist, which is refused while assets of that type
    /// are registered.
    pub fn remove_asset_type(&mut self, admin: &Address, asset_type: Symbol) -> (r: Result<
        (),
        ContractError,
    >)
        requires
            old(self).wf(),
        ensures
            final(self).wf(),
            match r {
                Ok(_) => admin_error(old(self)@, admin@) is None && type_count(
                    old(self)@,
                    asset_type@,
                ) == 0 && final(self)@ == (AssetRegistryView {
                    asset_types: old(self)@.asset_types.remove(asset_type@),
                    events: old(self)@.events.push(
                        RegistryEvent::AssetTypeRemoved { asset_type: asset_type },
                    ),
                    ..old(self)@
                }),
                Err(e) => final(self)@ == old(self)@ && match admin_error(old(self)@, admin@) {
                    Some(a) => e == a,
                    None => type_count(old(self)@, asset_type@) > 0 && e
                        == ContractError::TypeInUse,
                },
            },
    {
        self.check_admin(admin)?;
        let count = match self.type_counts.get(&asset_type) {
            Some(c) => *c,
            None => 0,
        };
        if count > 0 {
            return Err(ContractError::TypeInUse);
        }
        self.asset_types.remove(&asset_type);
        self.events.push(RegistryEvent::AssetTypeRemoved { asset_type });
        proof {
            lemma_invariant_frame(old(self)@, self@);
        }
        Ok(())
    }
    /// Appends `asset_id` to the list of `owner`.
    fn owner_index_add(&mut self, owner: &Address, asset_id: u64)
        ensures
            final(self)@ == (AssetRegistryView {
                owner_index: old(self)@.owner_index.insert(
                    owner@,
                    listed(old(self)@.owner_index, owner@).push(asset_id),
                ),
                ..old(self)@
            }),
    {
        let mut ids = match self.owner_index.remove(owner) {
            Some(ids) => ids,
            None => Vec::new(),
        };
        ids.push(asset_id);
        self.owner_index.insert(owner.clone(), ids);
        assert(self@.owner_index =~= old(self)@.owner_index.insert(
            owner@,
            listed(old(self)@.owner_index, owner@).push(asset_id),
        ));
    }

    /// The first asset listed under the owner of `key`, other than `skip`, whose owner
    /// and metadata digest are those of `key`.
    fn next_holder(&self, env: &soroban_sdk::Env, key: &DedupKey, skip: u64) -> (r: Option<u64>)
        ensures
            r == first_holder(self@.assets, listed(self@.owner_index, key@.0), key@, skip, 0),
    {
        let ids = match self.owner_index.get(&key.owner) {
            Some(l) => l,
            None => {
                assert(!self@.owner_index.contains_key(key@.0));
                assert(listed(self@.owner_index, key@.0).len() == 0);
                return None;
            },
        };
        let ghost list = listed(self@.owner_index, key@.0);
        assert(list == ids@);
        let mut i: usize = 0;
        while i < ids.len()
            invariant
                i <= ids@.len(),
                ids@ == list,
                list == listed(self@.owner_index, key@.0),
                first_holder(self@.assets, list, key@, skip, 0) == first_holder(
                    self@.assets,
                    list,
                    key@,
                    skip,
                    i as int,
                ),
            decreases ids@.len() - i,
        {
            let j = ids[i];
            assert(list[i as int] == j);
            if j != skip {
                match self.assets.get(&j) {
                    Some(a) => {
                        if a.owner == key.owner {
                            let d = metadata_digest(env, &a.metadata);
                            if digests_equal(&d, &key.digest) {
                                return Some(j);
                            }
                        }
                    },
                    None => {},
                }
            }
            i = i + 1;
        }
        None
    }

    /// Releases the deduplication entry `key` held by asset `asset_id`.
    fn release_key(&mut self, env: &soroban_sdk::Env, key: DedupKey, asset_id: u64)
        ensures
            final(self)@ == (AssetRegistryView {
                dedup: released(old(self)@, key@, asset_id),
                ..old(self)@
            }),
    {
        let names_it = match self.dedup.get(&key) {
            Some(holder) => *holder == asset_id,
            None => false,
        };
        if !names_it {
            return;
        }
        match self.next_holder(env, &key, asset_id) {
            Some(j) => {
                self.dedup.insert(key, j);
            },
            None => {
                self.dedup.remove(&key);
            },
        }
    }

    /// Filters `asset_id` out of the list of `owner`, where the owner has a list.
    fn owner_index_remove(&mut self, owner: &Address, asset_id: u64)
        ensures
            final(self)@ == (AssetRegistryView {
                owner_index: remove_listed(old(self)@.owner_index, owner@, asset_id),
                ..old(self)@
            }),
    {
        match self.owner_index.remove(owner) {
            Some(ids) => {
                let updated = copy_without(&ids, asset_id);
                self.owner_index.insert(owner.clone(), updated);
                assert(self@.owner_index =~= remove_listed(
                    old(self)@.owner_index,
                    owner@,
                    asset_id,
                ));
            },
            None => {
                assert(self@.owner_index =~= old(self)@.owner_index);
            },
        }
    }

    /// Counts one more asset of type `asset_type`.
    fn type_count_inc(&mut self, asset_type: &Symbol)
        requires
            type_count(old(self)@, asset_type@) < u64::MAX,
        ensures
            final(self)@ == (AssetRegistryView {
                type_counts: old(self)@.type_counts.insert(
                    asset_type@,
                    (type_count(old(self)@, asset_type@) + 1) as u64,
                ),
                ..old(self)@
            }),
    {
        let count = match self.type_counts.get(asset_type) {
            Some(c) => *c,
            None => 0,
        };
        self.type_counts.insert(asset_type.clone(), count + 1);
    }

    /// Counts one asset of type `asset_type` less, where the count is positive.
    fn type_count_dec(&mut self, asset_type: &Symbol)
        ensures
            final(self)@ == (AssetRegistryView {
                type_counts: decremented(old(self)@, asset_type@),
                ..old(self)@
            }),
    {
        let count = match self.type_counts.get(asset_type) {
            Some(c) => *c,
            None => 0,
        };
        if count > 0 {
            self.type_counts.insert(asset_type.clone(), count - 1);
        }
    }

    /// Stores a registration that has passed its checks, under the next id.
    fn store_registration(
        &mut self,
        key: DedupKey,
        asset_type: Symbol,
        metadata: String,
        owner: Address,
        now: u64,
    ) -> (asset_id: u64)
        requires
            old(self).wf(),
            key@ == (owner@, metadata_sha256(metadata@)),
            !old(self)@.dedup.contains_key(key@),
            old(self)@.asset_count < u64::MAX,
        ensures
            final(self).wf(),
            asset_id == old(self)@.asset_count + 1,
            final(self)@ == register_effect(old(self)@, asset_type, metadata, owner, now),
    {
        let asset_id = self.asset_count + 1;
        proof {
            lemma_register_effect(old(self)@, asset_type, metadata, owner, now);
            assert(type_count(old(self)@, asset_type@) <= old(self)@.asset_count);
        }
        let event = RegistryEvent::AssetRegistered {
            asset_id,
            asset_type: asset_type.clone(),
            owner: owner.clone(),
            timestamp: now,
        };
        self.owner_index_add(&owner, asset_id);
        self.type_count_inc(&asset_type);
        self.dedup.insert(key, asset_id);
        self.assets.insert(
            asset_id,
            Asset {
                asset_id,
                asset_type,
                metadata,
                owner,
                registered_at: now,
                metadata_updated_at: now,
            },
        );
        self.asset_count = asset_id;
        self.events.push(event);
        asset_id
    }

    /// Registers an asset of `asset_type` described by `metadata`, owned by `owner`, at
    /// ledger time `now`, and hands back its id.
    pub fn register_asset(
        &mut self,
        env: &soroban_sdk::Env,
        asset_type: Symbol,
        metadata: String,
        owner: Address,
        now: u64,
    ) -> (r: Result<u64, ContractError>)
        requires
            old(self).wf(),
            register_error(old(self)@, asset_type@, metadata@, owner@) is None ==> old(self)@.asset_count < u64::MAX,
        ensures
            final(self).wf(),
            match r {
                Ok(asset_id) => register_error(old(self)@, asset_type@, metadata@, owner@) is None
                    && asset_id == old(self)@.asset_count + 1 && final(self)@ == register_effect(
                    old(self)@,
                    asset_type,
                    metadata,
                    owner,
                    now,
                ),
                Err(e) => register_error(old(self)@, asset_type@, metadata@, owner@) == Some(e)
                    && final(self)@ == old(self)@,
            },
    {
        if self.paused {
            return Err(ContractError::Paused);
        }
        if !self.is_valid_asset_type(&asset_type) {
            return Err(ContractError::InvalidAssetType);
        }
        let digest = metadata_digest(env, &metadata);
        let key = DedupKey { owner: owner.clone(), digest };
        if self.dedup.contains_key(&key) {
            return Err(ContractError::DuplicateAsset);
        }
        let asset_id = self.store_registration(key, asset_type, metadata, owner, now);
        Ok(asset_id)
    }

    /// Registers the assets of a batch for `owner` at ledger time `now`, one after the
    /// other, all or none, and hands back their ids.
    pub fn batch_register_assets(
        &mut self,
        env: &soroban_sdk::Env,
        owner: Address,
        assets: Vec<AssetInput>,
        now: u64,
    ) -> (r: Result<Vec<u64>, ContractError>)
        requires
            old(self).wf(),
            batch_error(old(self)@, owner@, assets@) is None ==> old(self)@.asset_count
                + assets@.len() <= u64::MAX,
        ensures
            final(self).wf(),
            match r {
                Ok(ids) => batch_error(old(self)@, owner@, assets@) is None && ids@
                    == consecutive_ids(old(self)@.asset_count + 1, assets@.len()) && batch_published(
                    final(self)@,
                    batch_effect(old(self)@, owner, assets@, now, assets@.len()),
                    owner,
                    ids@,
                    now,
                ),
                Err(e) => batch_error(old(self)@, owner@, assets@) == Some(e) && final(self)@ == old(self)@,
            },
    {
        if self.paused {
            return Err(ContractError::Paused);
        }
        let n = assets.len();
        let ghost v = self@;
        // check every item before registering any
        let mut digests: Vec<[u8; 32]> = Vec::new();
        let mut i: usize = 0;
        while i < n
            invariant
                self@ == v,
                registry_invariant(v),
                !v.paused,
                n == assets@.len(),
                i <= n,
                digests@.len() == i,
                forall|j: int| 0 <= j < i ==> #[trigger] digests@[j]@ == metadata_sha256(
                    assets@[j].metadata@,
                ),
                batch_fault_from(v, owner@, assets@, 0) == batch_fault_from(v, owner@, assets@, i as int),
            decreases n - i,
        {
            if !self.is_valid_asset_type(&assets[i].asset_type) {
                return Err(ContractError::InvalidAssetType);
            }
            let d = metadata_digest(env, &assets[i].metadata);
            if self.dedup.contains_key(&DedupKey { owner: owner.clone(), digest: d }) {
                return Err(ContractError::DuplicateAsset);
            }
            let mut j: usize = 0;
            #[verifier::loop_isolation(false)]
            while j < i
                invariant
                    j <= i,
                    i < n,
                    n == assets@.len(),
                    digests@.len() == i,
                    forall|k: int| 0 <= k < i ==> #[trigger] digests@[k]@ == metadata_sha256(
                        assets@[k].metadata@,
                    ),
                    d@ == metadata_sha256(assets@[i as int].metadata@),
                    forall|k: int| 0 <= k < j ==> metadata_sha256(#[trigger] assets@[k].metadata@)
                        != d@,
                decreases i - j,
            {
                if digests_equal(&digests[j], &d) {
                    assert(metadata_sha256(assets@[j as int].metadata@) == d@);
                    return Err(ContractError::DuplicateAsset);
                }
                j = j + 1;
            }
            assert(batch_item_error(v, owner@, assets@, i as int) is None);
            digests.push(d);
            i = i + 1;
        }
        proof {
            assert forall|k: int| 0 <= k < n implies #[trigger] batch_item_error(
                v,
                owner@,
                assets@,
                k,
            ) is None by {
                lemma_no_fault(v, owner@, assets@, 0, k);
            }
        }
        // register them in order
        let mut ids: Vec<u64> = Vec::new();
        let mut k: usize = 0;
        while k < n
            invariant
                k <= n,
                n == assets@.len(),
                digests@.len() == n,
                forall|j: int| 0 <= j < n ==> #[trigger] digests@[j]@ == metadata_sha256(
                    assets@[j].metadata@,
                ),
                forall|j: int| 0 <= j < n ==> #[trigger] batch_item_error(v, owner@, assets@, j) is None,
                registry_invariant(v),
                v.asset_count + n <= u64::MAX,
                self.wf(),
                self@ == batch_effect(v, owner, assets@, now, k as nat),
                ids@ == consecutive_ids(v.asset_count + 1, k as nat),
            decreases n - k,
        {
            proof {
                lemma_batch_effect(v, owner, assets@, now, k as nat);
                let d = metadata_sha256(assets@[k as int].metadata@);
                assert(batch_item_error(v, owner@, assets@, k as int) is None);
                if self@.dedup.contains_key((owner@, d)) {
                    if !v.dedup.contains_key((owner@, d)) {
                        let j = choose|j: int|
                            0 <= j < k && (owner@, d) == (owner@, #[trigger] metadata_sha256(
                                assets@[j].metadata@,
                            ));
                        assert(metadata_sha256(assets@[j].metadata@) == d);
                    }
                }
            }
            let key = DedupKey { owner: owner.clone(), digest: digests[k] };
            let asset_id = self.store_registration(
                key,
                assets[k].asset_type.clone(),
                assets[k].metadata.clone(),
                owner.clone(),
                now,
            );
            ids.push(asset_id);
            k = k + 1;
            assert(ids@ =~= consecutive_ids(v.asset_count + 1, k as nat));
        }
        if n > 0 {
            let published = copy_all(&ids);
            self.events.push(
                RegistryEvent::BatchRegistered { owner, asset_ids: published, timestamp: now },
            );
            proof {
                lemma_invariant_frame(batch_effect(v, owner, assets@, now, n as nat), self@);
                assert(self@.events.drop_last() =~= batch_effect(v, owner, assets@, now, n as nat).events);
            }
        }
        Ok(ids)
    }

    /// Deregisters asset `asset_id`, at the request of the admin or of the asset's owner.
    pub fn deregister_asset(&mut self, env: &soroban_sdk::Env, caller: &Address, asset_id: u64) -> (r:
        Result<(), ContractError>)
        requires
            old(self).wf(),
        ensures
            final(self).wf(),
            match r {
                Ok(_) => deregister_error(old(self)@, caller@, asset_id) is None && final(self)@
                    == deregister_effect(old(self)@, asset_id),
                Err(e) => deregister_error(old(self)@, caller@, asset_id) == Some(e) && final(self)@ == old(self)@,
            },
    {
        if self.paused {
            return Err(ContractError::Paused);
        }
        let asset = match self.assets.get(&asset_id) {
            Some(a) => a.duplicate(),
            None => {
                return Err(ContractError::AssetNotFound);
            },
        };
        match &self.admin {
            None => {
                return Err(ContractError::NotInitialized);
            },
            Some(admin) => {
                if *caller != *admin && *caller != asset.owner {
                    return Err(ContractError::UnauthorizedOwner);
                }
            },
        }
        proof {
            lemma_deregister_effect(old(self)@, asset_id);
        }
        let digest = metadata_digest(env, &asset.metadata);
        self.release_key(env, DedupKey { owner: asset.owner.clone(), digest }, asset_id);
        self.assets.remove(&asset_id);
        self.owner_index_remove(&asset.owner, asset_id);
        self.type_count_dec(&asset.asset_type);
        self.events.push(
            RegistryEvent::AssetDeregistered {
                asset_id,
                asset_type: asset.asset_type,
                owner: asset.owner,
            },
        );
        Ok(())
    }

    /// Replaces the metadata of asset `asset_id` by `new_metadata`, at the request of its
    /// owner, at ledger time `now`.
    pub fn update_asset_metadata(
        &mut self,
        env: &soroban_sdk::Env,
        asset_id: u64,
        owner: Address,
        new_metadata: String,
        now: u64,
    ) -> (r: Result<(), ContractError>)
        requires
            old(self).wf(),
        ensures
            final(self).wf(),
            match r {
                Ok(_) => update_metadata_error(old(self)@, asset_id, owner@, new_metadata@) is None
                    && final(self)@ == update_metadata_effect(
                    old(self)@,
                    asset_id,
                    owner,
                    new_metadata,
                    now,
                ),
                Err(e) => update_metadata_error(old(self)@, asset_id, owner@, new_metadata@)
                    == Some(e) && final(self)@ == old(self)@,
            },
    {
        if self.paused {
            return Err(ContractError::Paused);
        }
        let asset = match self.assets.get(&asset_id) {
            Some(a) => a.duplicate(),
            None => {
                return Err(ContractError::AssetNotFound);
            },
        };
        if asset.owner != owner {
            return Err(ContractError::UnauthorizedOwner);
        }
        if new_metadata == asset.metadata {
            return Ok(());
        }
        let old_key = DedupKey { owner: owner.clone(), digest: metadata_digest(env, &asset.metadata) };
        let new_key = DedupKey { owner: owner.clone(), digest: metadata_digest(env, &new_metadata) };
        if !old_key.same_key(&new_key) && self.dedup.contains_key(&new_key) {
            return Err(ContractError::DuplicateAsset);
        }
        proof {
            lemma_update_metadata_effect(old(self)@, asset_id, owner, new_metadata, now);
        }
        self.release_key(env, old_key, asset_id);
        self.dedup.insert(new_key, asset_id);
        let event = RegistryEvent::MetadataUpdated {
            asset_id,
            owner,
            metadata: new_metadata.clone(),
            timestamp: now,
        };
        self.assets.insert(
            asset_id,
            Asset { metadata: new_metadata, metadata_updated_at: now, ..asset },
        );
        self.events.push(event);
        Ok(())
    }

    /// Passes asset `asset_id` from `current_owner` to `new_owner`, at ledger time `now`.
    pub fn transfer_asset(
        &mut self,
        env: &soroban_sdk::Env,
        asset_id: u64,
        current_owner: Address,
        new_owner: Address,
        now: u64,
    ) -> (r: Result<(), ContractError>)
        requires
            old(self).wf(),
        ensures
            final(self).wf(),
            match r {
                Ok(_) => transfer_error(old(self)@, asset_id, current_owner@, new_owner@) is None
                    && final(self)@ == transfer_effect(old(self)@, asset_id, current_owner, new_owner, now),
                Err(e) => transfer_error(old(self)@, asset_id, current_owner@, new_owner@) == Some(e)
                    && final(self)@ == old(self)@,
            },
    {
        if self.paused {
            return Err(ContractError::Paused);
        }
        let asset = match self.assets.get(&asset_id) {
            Some(a) => a.duplicate(),
            None => {
                return Err(ContractError::AssetNotFound);
            },
        };
        if asset.owner != current_owner {
            return Err(ContractError::UnauthorizedOwner);
        }
        let digest = metadata_digest(env, &asset.metadata);
        proof {
            lemma_transfer_effect(old(self)@, asset_id, current_owner, new_owner, now);
        }
        self.release_key(env, DedupKey { owner: current_owner.clone(), digest }, asset_id);
        self.dedup.insert(DedupKey { owner: new_owner.clone(), digest }, asset_id);
        self.owner_index_remove(&current_owner, asset_id);
        self.owner_index_add(&new_owner, asset_id);
        let event = RegistryEvent::AssetTransferred {
            asset_id,
            from: current_owner,
            to: new_owner.clone(),
            timestamp: now,
        };
        self.assets.insert(asset_id, Asset { owner: new_owner, ..asset });
        self.events.push(event);
        Ok(())
    }
}

/// Why a call that only the admin may make is refused, if it is.
pub open spec fn admin_error(v: AssetRegistryView, caller: Seq<char>) -> Option<ContractError> {
    match v.admin {
        None => Some(ContractError::NotInitialized),
        Some(a) => if a == caller {
            None
        } else {
            Some(ContractError::UnauthorizedAdmin)
        },
    }
}

/// Why an admin proposal is refused, if it is.
pub open spec fn propose_admin_error(v: AssetRegistryView, caller: Seq<char>) -> Option<
    ContractError,
> {
    match admin_error(v, caller) {
        Some(e) => Some(e),
        None => if v.pending_admin is Some {
            Some(ContractError::PendingAdminAlreadyExists)
        } else {
            None
        },
    }
}

} // verus!
