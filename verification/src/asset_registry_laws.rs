//! What holds of the asset registry across its entry points.

use vstd::prelude::*;

use crate::asset_registry::{
    admin_error, assets_of_type, batch_effect, batch_error, batch_fault_from, batch_item_error, deregister_effect,
    deregister_error, dedup_key_of, holds_key, lemma_released, released, lemma_no_fault, lemma_batch_effect, lemma_fault_is_fault, listed, metadata_sha256,
    register_effect, register_error, registry_invariant, transfer_effect, transfer_error, type_allowed,
    type_count, update_metadata_effect, update_metadata_error, AssetInput, AssetRegistryView,
    ContractError,
};
use crate::{Address, Symbol};

verus! {

/// A registered asset can be read back: it is stored under the next id with the type,
/// metadata and owner it was registered with, stamped with the ledger time of the
/// registration as both its registration and its last metadata update, and the asset
/// count moves on by one.
pub proof fn law_registered_asset_reads_back(
    v: AssetRegistryView,
    asset_type: Symbol,
    metadata: String,
    owner: Address,
    now: u64,
)
    requires
        registry_invariant(v),
        register_error(v, asset_type@, metadata@, owner@) is None,
        v.asset_count < u64::MAX,
    ensures
        ({
            let w = register_effect(v, asset_type, metadata, owner, now);
            let id = (v.asset_count + 1) as u64;
            &&& w.asset_count == v.asset_count + 1
            &&& !v.assets.contains_key(id)
            &&& w.assets.contains_key(id)
            &&& w.assets[id].asset_id == id
            &&& w.assets[id].asset_type == asset_type
            &&& w.assets[id].metadata == metadata
            &&& w.assets[id].owner == owner
            &&& w.assets[id].registered_at == now
            &&& w.assets[id].metadata_updated_at == now
            &&& forall|other: u64| other != id ==> w.assets.get(other) == v.assets.get(other)
        }),
{
    let w = register_effect(v, asset_type, metadata, owner, now);
    let id = (v.asset_count + 1) as u64;
    assert(!v.assets.contains_key(id));
    assert forall|other: u64| other != id implies w.assets.get(other) == v.assets.get(other) by {}
}

/// A metadata update that changes the metadata stores the new metadata and stamps the
/// asset with the ledger time of the update, leaving its id, type, owner and
/// registration time as they were; identical metadata changes nothing.
pub proof fn law_metadata_update_stamps_asset(
    v: AssetRegistryView,
    asset_id: u64,
    owner: Address,
    new_metadata: String,
    now: u64,
)
    requires
        v.assets.contains_key(asset_id),
    ensures
        ({
            let a = v.assets[asset_id];
            let w = update_metadata_effect(v, asset_id, owner, new_metadata, now);
            &&& w.assets.contains_key(asset_id)
            &&& w.assets[asset_id].metadata@ == new_metadata@
            &&& new_metadata@ != a.metadata@ ==> w.assets[asset_id].metadata_updated_at == now
            &&& new_metadata@ == a.metadata@ ==> w == v
            &&& w.assets[asset_id].asset_id == a.asset_id
            &&& w.assets[asset_id].asset_type == a.asset_type
            &&& w.assets[asset_id].owner == a.owner
            &&& w.assets[asset_id].registered_at == a.registered_at
            &&& w.asset_count == v.asset_count
        }),
{
}

/// A transfer gives the asset to the new owner and changes nothing else about it.
pub proof fn law_transfer_changes_only_owner(
    v: AssetRegistryView,
    asset_id: u64,
    current_owner: Address,
    new_owner: Address,
    now: u64,
)
    requires
        v.assets.contains_key(asset_id),
    ensures
        ({
            let a = v.assets[asset_id];
            let w = transfer_effect(v, asset_id, current_owner, new_owner, now);
            &&& w.assets.contains_key(asset_id)
            &&& w.assets[asset_id].owner == new_owner
            &&& w.assets[asset_id].asset_id == a.asset_id
            &&& w.assets[asset_id].asset_type == a.asset_type
            &&& w.assets[asset_id].metadata == a.metadata
            &&& w.assets[asset_id].registered_at == a.registered_at
            &&& w.assets[asset_id].metadata_updated_at == a.metadata_updated_at
            &&& w.assets.dom() == v.assets.dom()
            &&& w.asset_count == v.asset_count
        }),
{
    let w = transfer_effect(v, asset_id, current_owner, new_owner, now);
    assert(w.assets.dom() =~= v.assets.dom());
}

/// An owner cannot register the same metadata twice: right after a registration, the
/// same owner registering the same metadata again is refused as a duplicate (unless a
/// pause or the allowlist refuses it first).
pub proof fn law_same_owner_same_metadata_is_duplicate(
    v: AssetRegistryView,
    asset_type: Symbol,
    metadata: String,
    owner: Address,
    now: u64,
    other_type: Seq<char>,
)
    requires
        register_error(v, asset_type@, metadata@, owner@) is None,
        type_allowed(v, other_type),
    ensures
        register_error(register_effect(v, asset_type, metadata, owner, now), other_type, metadata@, owner@)
            == Some(ContractError::DuplicateAsset),
{
}

/// Deduplication is per owner: a registration for one owner does not change whether
/// another owner may register the same metadata.
pub proof fn law_duplicates_are_per_owner(
    v: AssetRegistryView,
    asset_type: Symbol,
    metadata: String,
    owner: Address,
    now: u64,
    other_type: Seq<char>,
    other_metadata: Seq<char>,
    other_owner: Seq<char>,
)
    requires
        other_owner != owner@,
    ensures
        register_error(
            register_effect(v, asset_type, metadata, owner, now),
            other_type,
            other_metadata,
            other_owner,
        ) == register_error(v, other_type, other_metadata, other_owner),
{
}

/// A registration is refused as a duplicate only where the owner holds a registered asset
/// whose metadata has the same digest.
pub proof fn law_duplicate_means_owner_holds_same_metadata(
    v: AssetRegistryView,
    asset_type: Seq<char>,
    metadata: Seq<char>,
    owner: Seq<char>,
)
    requires
        registry_invariant(v),
        register_error(v, asset_type, metadata, owner) == Some(ContractError::DuplicateAsset),
    ensures
        exists|id: u64|
            #![trigger v.assets[id]]
            v.assets.contains_key(id) && v.assets[id].owner@ == owner && metadata_sha256(
                v.assets[id].metadata@,
            ) == metadata_sha256(metadata),
{
    let id = v.dedup[(owner, metadata_sha256(metadata))];
    assert(v.assets.contains_key(id));
}

/// The owner index lists exactly the registered assets of each owner, each once.
pub proof fn law_owner_index_is_exact(v: AssetRegistryView, owner: Seq<char>, asset_id: u64)
    requires
        registry_invariant(v),
    ensures
        listed(v.owner_index, owner).contains(asset_id) <==> (v.assets.contains_key(asset_id)
            && v.assets[asset_id].owner@ == owner),
        listed(v.owner_index, owner).no_duplicates(),
{
    let l = listed(v.owner_index, owner);
    if l.contains(asset_id) {
        let i = choose|i: int| 0 <= i < l.len() && l[i] == asset_id;
        assert(v.owner_index[owner][i] == asset_id);
    }
}

/// An asset type can be taken off the allowlist exactly when no registered asset has it:
/// the admin's removal is refused as `TypeInUse` if and only if such an asset exists.
pub proof fn law_type_in_use_iff_registered(v: AssetRegistryView, admin: Seq<char>, t: Seq<char>)
    requires
        registry_invariant(v),
        admin_error(v, admin) is None,
    ensures
        (type_count(v, t) > 0) <==> (exists|id: u64|
            #![trigger v.assets[id]]
            v.assets.contains_key(id) && v.assets[id].asset_type@ == t),
{
    let s = assets_of_type(v.assets, t);
    v.assets.dom().lemma_len_filter(|i: u64| v.assets[i].asset_type@ == t);
    if exists|id: u64| #![trigger v.assets[id]] v.assets.contains_key(id) && v.assets[id].asset_type@ == t {
        let id = choose|id: u64|
            #![trigger v.assets[id]]
            v.assets.contains_key(id) && v.assets[id].asset_type@ == t;
        assert(s.contains(id));
    }
    if type_count(v, t) > 0 {
        assert(s.len() > 0);
        let id = s.choose();
        assert(s.contains(id));
        assert(v.assets.contains_key(id) && v.assets[id].asset_type@ == t);
    }
}

/// After a transfer, the new owner may not register the asset's metadata, and the
/// previous owner may register it again exactly where the previous owner holds no other
/// asset whose metadata has the same digest.
pub proof fn law_transfer_moves_deduplication(
    v: AssetRegistryView,
    asset_id: u64,
    current_owner: Address,
    new_owner: Address,
    now: u64,
    t: Seq<char>,
)
    requires
        registry_invariant(v),
        transfer_error(v, asset_id, current_owner@, new_owner@) is None,
        current_owner@ != new_owner@,
        type_allowed(v, t),
    ensures
        ({
            let w = transfer_effect(v, asset_id, current_owner, new_owner, now);
            let m = v.assets[asset_id].metadata@;
            &&& register_error(w, t, m, new_owner@) == Some(ContractError::DuplicateAsset)
            &&& register_error(w, t, m, current_owner@) is None <==> !exists|j: u64|
                holds_key(v.assets, j, (current_owner@, metadata_sha256(m)), asset_id)
        }),
{
    lemma_released_exactly(v, asset_id);
}

/// After an asset is deregistered, its owner may register the same metadata again
/// exactly where the owner holds no other asset whose metadata has the same digest.
pub proof fn law_deregistered_metadata_can_be_registered_again(
    v: AssetRegistryView,
    caller: Seq<char>,
    asset_id: u64,
    t: Seq<char>,
)
    requires
        registry_invariant(v),
        deregister_error(v, caller, asset_id) is None,
        type_allowed(v, t),
    ensures
        ({
            let a = v.assets[asset_id];
            register_error(deregister_effect(v, asset_id), t, a.metadata@, a.owner@) is None
                <==> !exists|j: u64| holds_key(v.assets, j, dedup_key_of(a), asset_id)
        }),
{
    lemma_released_exactly(v, asset_id);
}

/// Once asset `asset_id` releases its key, the key stays in the index exactly where
/// another asset holds it.
proof fn lemma_released_exactly(v: AssetRegistryView, asset_id: u64)
    requires
        registry_invariant(v),
        v.assets.contains_key(asset_id),
    ensures
        released(v, dedup_key_of(v.assets[asset_id]), asset_id).contains_key(
            dedup_key_of(v.assets[asset_id]),
        ) <==> exists|j: u64| holds_key(v.assets, j, dedup_key_of(v.assets[asset_id]), asset_id),
{
    let k = dedup_key_of(v.assets[asset_id]);
    lemma_released(v, asset_id);
    let r = released(v, k, asset_id);
    if r.contains_key(k) {
        assert(holds_key(v.assets, r[k], k, asset_id));
    }
    if exists|j: u64| holds_key(v.assets, j, k, asset_id) {
        let j = choose|j: u64| holds_key(v.assets, j, k, asset_id);
        assert(v.assets.contains_key(j) && j != asset_id);
        assert(r.contains_key(dedup_key_of(v.assets[j])));
    }
}

/// While the registry is paused, every call that would change its assets is refused as
/// `Paused`.
pub proof fn law_pause_blocks_asset_changes(
    v: AssetRegistryView,
    owner: Seq<char>,
    asset_type: Seq<char>,
    metadata: Seq<char>,
    assets: Seq<AssetInput>,
    caller: Seq<char>,
    asset_id: u64,
)
    requires
        v.paused,
    ensures
        register_error(v, asset_type, metadata, owner) == Some(ContractError::Paused),
        batch_error(v, owner, assets) == Some(ContractError::Paused),
        deregister_error(v, caller, asset_id) == Some(ContractError::Paused),
        update_metadata_error(v, asset_id, owner, metadata) == Some(ContractError::Paused),
        transfer_error(v, asset_id, owner, caller) == Some(ContractError::Paused),
{
}

/// Updating an asset's metadata to what it already is changes nothing.
pub proof fn law_identical_metadata_update_is_noop(
    v: AssetRegistryView,
    asset_id: u64,
    owner: Address,
    now: u64,
)
    requires
        v.assets.contains_key(asset_id),
    ensures
        update_metadata_effect(v, asset_id, owner, v.assets[asset_id].metadata, now) == v,
{
}

/// A batch registration hands out consecutive ids and leaves the registry as registering
/// its items one by one would, with the batch announced last.
pub proof fn law_batch_is_consecutive_registrations(
    v: AssetRegistryView,
    owner: Address,
    assets: Seq<AssetInput>,
    now: u64,
)
    requires
        registry_invariant(v),
        batch_error(v, owner@, assets) is None,
        v.asset_count + assets.len() <= u64::MAX,
    ensures
        batch_effect(v, owner, assets, now, assets.len()).asset_count == v.asset_count
            + assets.len(),
        forall|j: int|
            0 <= j < assets.len() ==> #[trigger] batch_effect(
                v,
                owner,
                assets,
                now,
                assets.len(),
            ).assets.contains_key((v.asset_count + 1 + j) as u64),
        forall|j: int|
            0 <= j < assets.len() ==> {
                let a = #[trigger] batch_effect(v, owner, assets, now, assets.len()).assets[(
                v.asset_count + 1 + j) as u64];
                &&& a.asset_id == v.asset_count + 1 + j
                &&& a.asset_type == assets[j].asset_type
                &&& a.metadata == assets[j].metadata
                &&& a.owner == owner
                &&& a.registered_at == now
                &&& a.metadata_updated_at == now
            },
{
    lemma_fault_is_fault(v, owner@, assets, 0);
    assert forall|k: int| 0 <= k < assets.len() implies #[trigger] batch_item_error(
        v,
        owner@,
        assets,
        k,
    ) is None by {
        lemma_no_fault(v, owner@, assets, 0, k);
    }
    lemma_batch_effect(v, owner, assets, now, assets.len());
    assert forall|j: int| 0 <= j < assets.len() implies #[trigger] batch_effect(
        v,
        owner,
        assets,
        now,
        assets.len(),
    ).assets.contains_key((v.asset_count + 1 + j) as u64) by {
        lemma_batch_keeps(v, owner, assets, now, (j + 1) as nat, assets.len());
    }
    assert forall|j: int| 0 <= j < assets.len() implies {
        let a = #[trigger] batch_effect(v, owner, assets, now, assets.len()).assets[(
        v.asset_count + 1 + j) as u64];
        &&& a.asset_id == v.asset_count + 1 + j
        &&& a.asset_type == assets[j].asset_type
        &&& a.metadata == assets[j].metadata
        &&& a.owner == owner
        &&& a.registered_at == now
        &&& a.metadata_updated_at == now
    } by {
        lemma_batch_keeps(v, owner, assets, now, (j + 1) as nat, assets.len());
    }
}

/// Later registrations of a batch keep the assets of earlier ones.
proof fn lemma_batch_keeps(
    v: AssetRegistryView,
    owner: Address,
    assets: Seq<AssetInput>,
    now: u64,
    k: nat,
    n: nat,
)
    requires
        1 <= k <= n <= assets.len(),
        v.asset_count + n <= u64::MAX,
    ensures
        batch_effect(v, owner, assets, now, n).assets.contains_key((v.asset_count + k) as u64),
        batch_effect(v, owner, assets, now, n).asset_count == v.asset_count + n,
        ({
            let a = batch_effect(v, owner, assets, now, n).assets[(v.asset_count + k) as u64];
            &&& a.asset_id == v.asset_count + k
            &&& a.asset_type == assets[k - 1].asset_type
            &&& a.metadata == assets[k - 1].metadata
            &&& a.owner == owner
            &&& a.registered_at == now
            &&& a.metadata_updated_at == now
        }),
    decreases n,
{
    if n > k {
        lemma_batch_keeps(v, owner, assets, now, k, (n - 1) as nat);
    } else {
        if k > 1 {
            lemma_batch_keeps(v, owner, assets, now, (k - 1) as nat, (k - 1) as nat);
        } else {
            assert(batch_effect(v, owner, assets, now, 0) == v);
        }
    }
}

/// An id is never handed out twice: deregistering an asset does not give its id back,
/// and the next registration takes an id that no asset has ever had.
pub proof fn law_ids_are_never_reused(
    v: AssetRegistryView,
    caller: Seq<char>,
    asset_id: u64,
    asset_type: Symbol,
    metadata: String,
    owner: Address,
    now: u64,
)
    requires
        registry_invariant(v),
        deregister_error(v, caller, asset_id) is None,
        v.asset_count < u64::MAX,
    ensures
        ({
            let w = deregister_effect(v, asset_id);
            let x = register_effect(w, asset_type, metadata, owner, now);
            &&& w.asset_count == v.asset_count
            &&& x.asset_count == v.asset_count + 1
            &&& (x.asset_count as u64) != asset_id
            &&& forall|id: u64| #[trigger] v.assets.contains_key(id) ==> id < x.asset_count
        }),
{
}

/// In every state of the registry, an owner who holds an asset with some metadata cannot
/// register that metadata again: the registration is refused as a duplicate (unless a
/// pause or the allowlist refuses it first), however the owner came to hold the asset.
pub proof fn law_holder_cannot_register_same_metadata(
    v: AssetRegistryView,
    held: u64,
    asset_type: Seq<char>,
)
    requires
        registry_invariant(v),
        v.assets.contains_key(held),
    ensures
        ({
            let a = v.assets[held];
            &&& register_error(v, asset_type, a.metadata@, a.owner@) is Some
            &&& !v.paused && type_allowed(v, asset_type) ==> register_error(
                v,
                asset_type,
                a.metadata@,
                a.owner@,
            ) == Some(ContractError::DuplicateAsset)
        }),
{
}

/// Registering items of a batch keeps the pause flag.
proof fn lemma_batch_keeps_pause(v: AssetRegistryView, owner: Address, assets: Seq<AssetInput>, now: u64, n: nat)
    ensures
        batch_effect(v, owner, assets, now, n).paused == v.paused,
    decreases n,
{
    if n > 0 {
        lemma_batch_keeps_pause(v, owner, assets, now, (n - 1) as nat);
    }
}

/// The first faulty item from `i` on is at `i` or later.
proof fn lemma_fault_not_before(v: AssetRegistryView, owner: Seq<char>, assets: Seq<AssetInput>, i: int)
    requires
        0 <= i,
    ensures
        batch_fault_from(v, owner, assets, i) >= i || batch_fault_from(v, owner, assets, i)
            == assets.len(),
        batch_fault_from(v, owner, assets, i) >= 0,
    decreases assets.len() - i,
{
    if i < assets.len() && batch_item_error(v, owner, assets, i) is None {
        lemma_fault_not_before(v, owner, assets, i + 1);
    }
}

/// The items before the first faulty one of a batch are not faulty.
proof fn lemma_before_fault(v: AssetRegistryView, owner: Seq<char>, assets: Seq<AssetInput>, i: int, k: int)
    requires
        0 <= i <= k < batch_fault_from(v, owner, assets, i),
        k < assets.len(),
    ensures
        batch_item_error(v, owner, assets, k) is None,
    decreases k - i,
{
    if i < k {
        lemma_before_fault(v, owner, assets, i + 1, k);
    }
}

/// A batch registration succeeds exactly when registering its items one after the other
/// would succeed at each step, and it then leaves the state those registrations leave
/// (with the batch announced last); an empty batch succeeds exactly when the registry
/// is not paused.
pub proof fn law_batch_succeeds_iff_each_registration_would(
    v: AssetRegistryView,
    owner: Address,
    assets: Seq<AssetInput>,
    now: u64,
)
    requires
        registry_invariant(v),
        v.asset_count + assets.len() <= u64::MAX,
    ensures
        assets.len() > 0 ==> (batch_error(v, owner@, assets) is None <==> forall|k: int|
            0 <= k < assets.len() ==> #[trigger] register_error(
                batch_effect(v, owner, assets, now, k as nat),
                assets[k].asset_type@,
                assets[k].metadata@,
                owner@,
            ) is None),
        assets.len() == 0 ==> (batch_error(v, owner@, assets) is None <==> !v.paused),
        forall|k: int|
            0 <= k < assets.len() ==> #[trigger] batch_effect(v, owner, assets, now, (k + 1) as nat)
                == register_effect(
                batch_effect(v, owner, assets, now, k as nat),
                assets[k].asset_type,
                assets[k].metadata,
                owner,
                now,
            ),
{
    let n = assets.len();
    lemma_fault_is_fault(v, owner@, assets, 0);
    if n > 0 {
        if batch_error(v, owner@, assets) is None {
            assert forall|k: int| 0 <= k < n implies #[trigger] register_error(
                batch_effect(v, owner, assets, now, k as nat),
                assets[k].asset_type@,
                assets[k].metadata@,
                owner@,
            ) is None by {
                assert forall|j: int| 0 <= j < k implies #[trigger] batch_item_error(
                    v,
                    owner@,
                    assets,
                    j,
                ) is None by {
                    lemma_no_fault(v, owner@, assets, 0, j);
                }
                lemma_no_fault(v, owner@, assets, 0, k);
                lemma_batch_effect(v, owner, assets, now, k as nat);
                lemma_batch_keeps_pause(v, owner, assets, now, k as nat);
                let w = batch_effect(v, owner, assets, now, k as nat);
                let key = (owner@, metadata_sha256(assets[k].metadata@));
                if w.dedup.contains_key(key) {
                    if !v.dedup.contains_key(key) {
                        let j = choose|j: int|
                            0 <= j < k && key == (owner@, #[trigger] metadata_sha256(
                                assets[j].metadata@,
                            ));
                        assert(batch_item_error(v, owner@, assets, k) is Some);
                    }
                }
            }
        } else {
            if !v.paused {
                let f = batch_fault_from(v, owner@, assets, 0);
                lemma_fault_not_before(v, owner@, assets, 0);
                assert(0 <= f < n);
                assert forall|j: int| 0 <= j < f implies #[trigger] batch_item_error(
                    v,
                    owner@,
                    assets,
                    j,
                ) is None by {
                    lemma_before_fault(v, owner@, assets, 0, j);
                }
                lemma_batch_effect(v, owner, assets, now, f as nat);
                lemma_batch_keeps_pause(v, owner, assets, now, f as nat);
                let w = batch_effect(v, owner, assets, now, f as nat);
                let d = metadata_sha256(assets[f].metadata@);
                if type_allowed(v, assets[f].asset_type@) {
                    if v.dedup.contains_key((owner@, d)) {
                        assert(w.dedup.contains_key((owner@, d)));
                    } else {
                        let j = choose|j: int|
                            0 <= j < f && #[trigger] metadata_sha256(assets[j].metadata@) == d;
                        assert(w.dedup.contains_key((owner@, d)));
                    }
                }
                assert(register_error(w, assets[f].asset_type@, assets[f].metadata@, owner@) is Some);
                assert(register_error(
                    batch_effect(v, owner, assets, now, f as nat),
                    assets[f].asset_type@,
                    assets[f].metadata@,
                    owner@,
                ) is Some);
            } else {
                let z: int = 0;
                lemma_batch_keeps_pause(v, owner, assets, now, z as nat);
                assert(register_error(
                    batch_effect(v, owner, assets, now, z as nat),
                    assets[z].asset_type@,
                    assets[z].metadata@,
                    owner@,
                ) is Some);
            }
        }
    }
}

} // verus!
