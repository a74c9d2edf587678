//! What holds of the life-cycle contract across its entry points, and with the
//! registries it consults.

use vstd::prelude::*;
use vstd::arithmetic::div_mod::{lemma_div_is_ordered, lemma_fundamental_div_mod, lemma_fundamental_div_mod_converse};

use crate::engineer_registry::{
    register_engineer_effect, register_engineer_error, revoke_effect, revoke_error, verified,
    EngineerRegistryView,
};
use crate::lifecycle::{
    batch_eligibility_error, batch_records, batch_submit_effect, checked_state, eligibility_error, eligibility_fold, batch_submit_error, byte_len, decay_applies, decay_effect, decay_intervals, decay_result, decayed_score, last_update_of, total_decay,
    eligible, engineer_history_of, history_of, latest_among, lemma_record_fault_is_fault, lifecycle_invariant, prune_effect,
    pushed_entry, raised, score_of, submit_effect, submit_error, task_weight, unpaused_admin_error,
    ContractError, LifecycleView, MaintenanceRecord, ScoreEntry, MAX_SCORE, BatchRecord, batch_scores,
    lemma_decay_effect, lemma_no_record_fault, record_error, record_fault_from, score_history_of, with_asset,
};
use crate::{Address, Symbol};

verus! {

/// A collateral score never leaves the range from zero to the cap.
pub proof fn law_score_within_cap(v: LifecycleView, asset_id: u64)
    requires
        lifecycle_invariant(v),
    ensures
        score_of(v, asset_id) <= MAX_SCORE,
{
}

/// A maintenance task raises the score, decayed to the time of the task, by the task's
/// points, up to the cap; the new score is the latest snapshot, and decay counts again
/// from the task.
pub proof fn law_submission_raises_score(
    v: LifecycleView,
    asset_id: u64,
    task_type: Symbol,
    notes: String,
    engineer: Address,
    now: u64,
)
    requires
        lifecycle_invariant(v),
        submit_error(v, asset_id, task_type@, notes@, true, true) is None,
    ensures
        ({
            let w = submit_effect(v, asset_id, task_type, notes, engineer, now);
            let weight = task_weight(task_type@)->0;
            &&& score_of(w, asset_id) == raised(decayed_score(v, asset_id, now) as int, weight as int)
            &&& score_of(w, asset_id) >= decayed_score(v, asset_id, now)
            &&& score_of(w, asset_id) <= MAX_SCORE
            &&& w.score_histories[asset_id].last() == ScoreEntry {
                timestamp: now,
                score: score_of(w, asset_id),
            }
            &&& w.last_updates[asset_id] == now
        }),
{
}

/// A submission that is accepted leaves the asset's history within the cap, with
/// exactly the submitted record appended after the earlier ones, unchanged.
pub proof fn law_submission_respects_history_cap(
    v: LifecycleView,
    asset_id: u64,
    task_type: Symbol,
    notes: String,
    engineer: Address,
    now: u64,
)
    requires
        submit_error(v, asset_id, task_type@, notes@, true, true) is None,
    ensures
        ({
            let w = submit_effect(v, asset_id, task_type, notes, engineer, now);
            &&& history_of(w, asset_id) == history_of(v, asset_id).push(
                MaintenanceRecord {
                    asset_id: asset_id,
                    task_type: task_type,
                    notes: notes,
                    engineer: engineer,
                    timestamp: now,
                },
            )
            &&& history_of(w, asset_id).len() <= v.config->0.max_history
        }),
{
}

/// A batch that is accepted leaves the asset's history within the cap, with one record
/// per task appended, in order, after the earlier ones, unchanged.
pub proof fn law_batch_respects_history_cap(
    v: LifecycleView,
    asset_id: u64,
    records: Seq<crate::lifecycle::BatchRecord>,
    engineer: Address,
    now: u64,
)
    requires
        batch_submit_error(v, asset_id, records, true, true) is None,
    ensures
        ({
            let w = batch_submit_effect(v, asset_id, records, engineer, now);
            &&& history_of(w, asset_id) == history_of(v, asset_id) + batch_records(
                asset_id,
                records,
                engineer,
                now,
            )
            &&& history_of(w, asset_id).len() <= v.config->0.max_history
            &&& history_of(w, asset_id).len() == history_of(v, asset_id).len() + records.len()
            &&& forall|i: int|
                0 <= i < records.len() ==> #[trigger] history_of(w, asset_id)[history_of(
                    v,
                    asset_id,
                ).len() + i] == MaintenanceRecord {
                    asset_id: asset_id,
                    task_type: records[i].task_type,
                    notes: records[i].notes,
                    engineer: engineer,
                    timestamp: now,
                }
        }),
{
    lemma_record_fault_is_fault(v.config->0, records, 0);
    let added = batch_records(asset_id, records, engineer, now);
    assert(added.len() == records.len());
    if records.len() == 0 {
        assert(history_of(v, asset_id) + added =~= history_of(v, asset_id));
    }
}

/// A score snapshot history never holds more than the cap once a snapshot is added,
/// the new snapshot last; nothing is dropped while it is under the cap, and at the cap
/// the oldest snapshots give way: the latest `max_history - 1` earlier snapshots stay,
/// in order.
pub proof fn law_snapshots_within_cap(h: Seq<ScoreEntry>, entry: ScoreEntry, max_history: u32)
    requires
        max_history > 0,
    ensures
        pushed_entry(h, entry, max_history).len() <= max_history,
        pushed_entry(h, entry, max_history).last() == entry,
        h.len() < max_history ==> pushed_entry(h, entry, max_history) == h.push(entry),
        h.len() >= max_history ==> pushed_entry(h, entry, max_history) == h.subrange(
            h.len() - (max_history - 1),
            h.len() as int,
        ).push(entry),
        h.len() >= max_history ==> forall|i: int|
            0 <= i < max_history - 1 ==> #[trigger] pushed_entry(h, entry, max_history)[i] == h[h.len()
                - max_history + 1 + i],
{
}

/// A decay that applies snapshots the decayed score, stamped with the ledger time, at
/// the end of the asset's score history; where the history is at the cap, its oldest
/// snapshot gives way and the rest stay in order.
pub proof fn law_decay_snapshot_evicts_oldest(
    v: LifecycleView,
    asset_id: u64,
    emit: bool,
    update_on_zero: bool,
    now: u64,
)
    requires
        v.config is Some,
        v.config->0.max_history > 0,
        decay_applies(v, asset_id, update_on_zero, now),
    ensures
        ({
            let h = score_history_of(v, asset_id);
            let m = v.config->0.max_history as int;
            let w = decay_effect(v, asset_id, emit, update_on_zero, now);
            let snap = ScoreEntry { timestamp: now, score: decayed_score(v, asset_id, now) };
            &&& h.len() < m ==> score_history_of(w, asset_id) == h.push(snap)
            &&& h.len() >= m ==> score_history_of(w, asset_id) == h.subrange(h.len() - (m - 1), h.len() as int).push(
                snap,
            )
            &&& score_of(w, asset_id) == decayed_score(v, asset_id, now)
        }),
{
}

/// A submission snapshots the new score, stamped with the ledger time, at the end of the
/// asset's score history; where the history is at the cap, its oldest snapshot gives way
/// and the rest stay in order.
pub proof fn law_submission_snapshot_evicts_oldest(
    v: LifecycleView,
    asset_id: u64,
    task_type: Symbol,
    notes: String,
    engineer: Address,
    now: u64,
)
    requires
        v.config is Some,
        v.config->0.max_history > 0,
    ensures
        ({
            let h = score_history_of(v, asset_id);
            let m = v.config->0.max_history as int;
            let w = submit_effect(v, asset_id, task_type, notes, engineer, now);
            let snap = ScoreEntry { timestamp: now, score: score_of(w, asset_id) };
            &&& h.len() < m ==> score_history_of(w, asset_id) == h.push(snap)
            &&& h.len() >= m ==> score_history_of(w, asset_id) == h.subrange(h.len() - (m - 1), h.len() as int).push(
                snap,
            )
        }),
{
}

/// Decay never raises a score, and where it applies, it takes off the rate's points for
/// each whole interval elapsed, not going below zero.
pub proof fn law_decay_never_raises(v: LifecycleView, asset_id: u64, update_on_zero: bool, now: u64)
    requires
        lifecycle_invariant(v),
        v.config is Some,
    ensures
        decay_result(v, asset_id, update_on_zero, now) <= score_of(v, asset_id),
        score_of(decay_effect(v, asset_id, false, update_on_zero, now), asset_id) == decay_result(
            v,
            asset_id,
            update_on_zero,
            now,
        ),
        !decay_applies(v, asset_id, update_on_zero, now) ==> decay_effect(
            v,
            asset_id,
            false,
            update_on_zero,
            now,
        ) == v,
{
}

/// An asset is eligible as collateral exactly when its decayed score reaches the
/// threshold; right after a reset to zero, only a zero threshold makes it eligible.
pub proof fn law_eligibility_is_threshold(v: LifecycleView, asset_id: u64, now: u64)
    requires
        v.config is Some,
        score_of(v, asset_id) == 0,
    ensures
        eligible(v, decay_result(v, asset_id, false, now)) <==> v.config->0.eligibility_threshold
            == 0,
{
}

/// The latest maintenance record is one with the greatest timestamp, and the first of
/// those.
pub proof fn law_last_service_is_latest(h: Seq<MaintenanceRecord>, k: int)
    requires
        1 <= k <= h.len(),
    ensures
        0 <= latest_among(h, k) < k,
        forall|j: int| 0 <= j < k ==> #[trigger] h[j].timestamp <= h[latest_among(h, k)].timestamp,
        forall|j: int|
            0 <= j < latest_among(h, k) ==> #[trigger] h[j].timestamp < h[latest_among(
                h,
                k,
            )].timestamp,
    decreases k,
{
    if k > 1 {
        law_last_service_is_latest(h, k - 1);
    }
}

/// The assets an engineer has maintained are listed once each, whatever the number of
/// submissions.
pub proof fn law_engineer_history_without_repeats(v: LifecycleView, engineer: Seq<char>)
    requires
        lifecycle_invariant(v),
    ensures
        engineer_history_of(v, engineer).no_duplicates(),
{
}

/// Pruning cuts an asset's records and snapshots to the cap and keeps the latest ones.
pub proof fn law_prune_keeps_latest(v: LifecycleView, admin: Address, asset_id: u64)
    requires
        v.config is Some,
    ensures
        ({
            let w = prune_effect(v, admin, asset_id);
            let max = v.config->0.max_history as int;
            &&& history_of(w, asset_id).len() <= max || history_of(w, asset_id) == history_of(
                v,
                asset_id,
            )
            &&& history_of(v, asset_id).len() > max ==> history_of(w, asset_id) == history_of(
                v,
                asset_id,
            ).subrange(history_of(v, asset_id).len() - max, history_of(v, asset_id).len() as int)
        }),
{
}

/// While the contract is paused, no maintenance can be recorded, and nothing that only
/// the admin may change can change.
pub proof fn law_pause_blocks_maintenance(
    v: LifecycleView,
    asset_id: u64,
    task_type: Seq<char>,
    notes: Seq<char>,
    records: Seq<crate::lifecycle::BatchRecord>,
    found: bool,
    verified_engineer: bool,
    admin: Seq<char>,
)
    requires
        v.paused,
    ensures
        submit_error(v, asset_id, task_type, notes, found, verified_engineer) == Some(
            ContractError::Paused,
        ),
        batch_submit_error(v, asset_id, records, found, verified_engineer) == Some(
            ContractError::Paused,
        ),
        unpaused_admin_error(v, admin) == Some(ContractError::Paused),
{
}

/// Across the two contracts: once an engineer's credential is revoked, the engineer
/// registry no longer verifies the engineer, and a submission that passes the other
/// checks is refused as `UnauthorizedEngineer`.
pub proof fn law_revoked_engineer_cannot_submit(
    registry: EngineerRegistryView,
    engineer: Seq<char>,
    revoked_at: u64,
    v: LifecycleView,
    asset_id: u64,
    task_type: Seq<char>,
    notes: Seq<char>,
    now: u64,
)
    requires
        revoke_error(registry, engineer) is None,
        !v.paused,
        v.config is Some,
        byte_len(notes) <= v.config->0.max_notes_length,
        task_weight(task_type) is Some,
    ensures
        submit_error(
            v,
            asset_id,
            task_type,
            notes,
            true,
            verified(revoke_effect(registry, engineer, revoked_at), engineer, now),
        ) == Some(ContractError::UnauthorizedEngineer),
{
}

/// Across the two contracts: an engineer whose credential has expired is not verified,
/// and a submission that passes the other checks is refused as `UnauthorizedEngineer`.
pub proof fn law_expired_engineer_cannot_submit(
    registry: EngineerRegistryView,
    engineer: Seq<char>,
    v: LifecycleView,
    asset_id: u64,
    task_type: Seq<char>,
    notes: Seq<char>,
    now: u64,
)
    requires
        registry.engineers.contains_key(engineer),
        now >= registry.engineers[engineer].expires_at,
        !v.paused,
        v.config is Some,
        byte_len(notes) <= v.config->0.max_notes_length,
        task_weight(task_type) is Some,
    ensures
        submit_error(v, asset_id, task_type, notes, true, verified(registry, engineer, now))
            == Some(ContractError::UnauthorizedEngineer),
{
}


/// Across the two contracts: a submission that passes every other check is refused as
/// `UnauthorizedEngineer` exactly when the engineer registry does not verify the
/// engineer; an engineer whose credential was revoked and who is then credentialed again
/// by a trusted issuer is verified until the new expiry, and the submission goes through.
pub proof fn law_reregistered_engineer_can_submit(
    registry: EngineerRegistryView,
    engineer: Address,
    revoked_at: u64,
    credential_hash: [u8; 32],
    issuer: Address,
    validity_period: u64,
    registered_at: u64,
    v: LifecycleView,
    asset_id: u64,
    task_type: Seq<char>,
    notes: Seq<char>,
    engineer_verified: bool,
    now: u64,
)
    requires
        revoke_error(registry, engineer@) is None,
        register_engineer_error(
            revoke_effect(registry, engineer@, revoked_at),
            credential_hash@,
            issuer@,
        ) is None,
        registered_at + validity_period <= u64::MAX,
        registered_at <= now < registered_at + validity_period,
        submit_error(v, asset_id, task_type, notes, true, true) is None,
    ensures
        submit_error(v, asset_id, task_type, notes, true, engineer_verified) == if engineer_verified {
            None
        } else {
            Some(ContractError::UnauthorizedEngineer)
        },
        ({
            let again = register_engineer_effect(
                revoke_effect(registry, engineer@, revoked_at),
                engineer,
                credential_hash,
                issuer,
                validity_period,
                registered_at,
            );
            &&& !verified(revoke_effect(registry, engineer@, revoked_at), engineer@, now)
            &&& verified(again, engineer@, now)
            &&& submit_error(v, asset_id, task_type, notes, true, verified(again, engineer@, now))
                is None
        }),
{
}

/// A maintenance record, once written, is never altered: a submission or a batch keeps
/// every asset's records as they were and adds the new ones after them, stamped with
/// the ledger time of the call; a decay leaves the records as they are; pruning, the
/// admin's explicit cut, keeps the latest records as they were.
pub proof fn law_records_are_never_altered(
    v: LifecycleView,
    asset_id: u64,
    task_type: Symbol,
    notes: String,
    records: Seq<crate::lifecycle::BatchRecord>,
    engineer: Address,
    admin: Address,
    now: u64,
    emit: bool,
    update_on_zero: bool,
    other: u64,
)
    requires
        v.config is Some,
    ensures
        history_of(v, other).is_prefix_of(
            history_of(submit_effect(v, asset_id, task_type, notes, engineer, now), other),
        ),
        history_of(v, other).is_prefix_of(
            history_of(batch_submit_effect(v, asset_id, records, engineer, now), other),
        ),
        forall|i: int|
            history_of(v, other).len() <= i < history_of(
                batch_submit_effect(v, asset_id, records, engineer, now),
                other,
            ).len() ==> (#[trigger] history_of(
                batch_submit_effect(v, asset_id, records, engineer, now),
                other,
            )[i]).timestamp == now,
        history_of(decay_effect(v, asset_id, emit, update_on_zero, now), other) == history_of(
            v,
            other,
        ),
        history_of(prune_effect(v, admin, asset_id), other).is_suffix_of(history_of(v, other)),
{
    let s = submit_effect(v, asset_id, task_type, notes, engineer, now);
    if other == asset_id {
        assert(history_of(v, other) =~= history_of(s, other).subrange(
            0,
            history_of(v, other).len() as int,
        ));
    } else {
        assert(history_of(s, other) == history_of(v, other));
        assert(history_of(v, other) =~= history_of(v, other).subrange(
            0,
            history_of(v, other).len() as int,
        ));
    }
    let b = batch_submit_effect(v, asset_id, records, engineer, now);
    let added = batch_records(asset_id, records, engineer, now);
    if other == asset_id && records.len() > 0 {
        assert(history_of(b, other) == history_of(v, other) + added);
        assert(history_of(v, other) =~= history_of(b, other).subrange(
            0,
            history_of(v, other).len() as int,
        ));
        assert forall|i: int|
            history_of(v, other).len() <= i < history_of(b, other).len() implies (
            #[trigger] history_of(b, other)[i]).timestamp == now by {
            assert(history_of(b, other)[i] == added[i - history_of(v, other).len()]);
        }
    } else {
        assert(history_of(b, other) == history_of(v, other));
        assert(history_of(v, other) =~= history_of(v, other).subrange(
            0,
            history_of(v, other).len() as int,
        ));
    }
    let p = prune_effect(v, admin, asset_id);
    let h = history_of(v, other);
    if other == asset_id && h.len() > v.config->0.max_history {
        assert(history_of(p, other) =~= h.subrange(
            h.len() - v.config->0.max_history as int,
            h.len() as int,
        ));
    } else {
        assert(history_of(p, other) == h);
        assert(h =~= h.subrange(0, h.len() as int));
    }
}

/// Only an engineer whom the engineer registry verifies, on an asset that the asset
/// registry knows, can have a maintenance record accepted, alone or in a batch.
pub proof fn law_only_verified_engineers_record(
    v: LifecycleView,
    asset_id: u64,
    task_type: Seq<char>,
    notes: Seq<char>,
    records: Seq<crate::lifecycle::BatchRecord>,
    found: bool,
    verified_engineer: bool,
)
    ensures
        submit_error(v, asset_id, task_type, notes, found, verified_engineer) is None ==> found
            && verified_engineer,
        batch_submit_error(v, asset_id, records, found, verified_engineer) is None ==> found
            && verified_engineer,
{
    if v.config is Some {
        lemma_record_fault_is_fault(v.config->0, records, 0);
    }
}

/// Decay counts the whole intervals since the last maintenance, however often it is
/// checked: decaying at `t1` and then at `t2` leaves the score that a single decay at
/// `t2` would, and the part of an interval left at `t1` is not lost.
pub proof fn law_decay_ignores_intermediate_checks(
    v: LifecycleView,
    asset_id: u64,
    emit: bool,
    update_on_zero: bool,
    t1: u64,
    t2: u64,
)
    requires
        lifecycle_invariant(v),
        v.config is Some,
        last_update_of(v, asset_id) <= t1 <= t2,
    ensures
        decayed_score(decay_effect(v, asset_id, emit, update_on_zero, t1), asset_id, t2)
            == decayed_score(v, asset_id, t2),
        decay_result(v, asset_id, update_on_zero, t1) == decayed_score(v, asset_id, t1)
            || !decay_applies(v, asset_id, update_on_zero, t1),
        last_update_of(decay_effect(v, asset_id, emit, update_on_zero, t1), asset_id) <= t1,
{
    let w = decay_effect(v, asset_id, emit, update_on_zero, t1);
    if decay_applies(v, asset_id, update_on_zero, t1) {
        let a0 = last_update_of(v, asset_id) as int;
        let d = v.config->0.decay_interval as int;
        let r = v.config->0.decay_rate as int;
        let k1 = decay_intervals(v, asset_id, t1) as int;
        let k = decay_intervals(v, asset_id, t2) as int;
        let x1 = t1 - a0;
        let x2 = t2 - a0;
        assert(d > 0);
        lemma_fundamental_div_mod(x1, d);
        lemma_fundamental_div_mod(x2, d);
        assert(k1 == x1 / d);
        assert(k == x2 / d);
        assert(k1 <= k) by {
            lemma_div_is_ordered(x1, x2, d);
        }
        assert(k1 * d <= x1) by (nonlinear_arith)
            requires
                x1 == d * k1 + x1 % d,
                x1 % d >= 0,
        ;
        assert(last_update_of(w, asset_id) == a0 + k1 * d);
        assert(k1 * d <= x2) by (nonlinear_arith)
            requires
                k1 <= k,
                x2 == d * k + x2 % d,
                x2 % d >= 0,
                d > 0,
        ;
        let x3 = t2 - (a0 + k1 * d);
        assert(x3 == (k - k1) * d + x2 % d) by (nonlinear_arith)
            requires
                x3 == x2 - k1 * d,
                x2 == d * k + x2 % d,
        ;
        lemma_fundamental_div_mod_converse(x3, d, k - k1, x2 % d);
        assert(decay_intervals(w, asset_id, t2) == k - k1);
        let s = score_of(v, asset_id) as int;
        assert(k1 * r <= k * r) by (nonlinear_arith)
            requires
                k1 <= k,
                r >= 0,
        ;
        assert((k - k1) * r == k * r - k1 * r) by (nonlinear_arith);
        assert(k1 * r >= 0) by (nonlinear_arith)
            requires
                k1 >= 0,
                r >= 0,
        ;
        assert(total_decay(w, asset_id, t2) == (k - k1) * r);
        assert(total_decay(v, asset_id, t2) == k * r);
        assert(total_decay(v, asset_id, t1) == k1 * r);
    }
}

/// The state after a run of decays, each of some asset with the given flags at the
/// given ledger time, as `decay_score`, `get_collateral_score` and
/// `is_collateral_eligible` make them.
pub open spec fn decay_checks(v: LifecycleView, checks: Seq<(u64, bool, bool, u64)>) -> LifecycleView
    decreases checks.len(),
{
    if checks.len() == 0 {
        v
    } else {
        let c = checks.last();
        decay_effect(decay_checks(v, checks.drop_last()), c.0, c.1, c.2, c.3)
    }
}

/// A decay hands back the decayed score whether or not it stores it.
proof fn lemma_decay_result_is_decayed(v: LifecycleView, asset_id: u64, update_on_zero: bool, now: u64)
    requires
        v.config is Some,
    ensures
        decay_result(v, asset_id, update_on_zero, now) == decayed_score(v, asset_id, now),
{
    if !decay_applies(v, asset_id, update_on_zero, now) && score_of(v, asset_id) != 0 {
        assert(total_decay(v, asset_id, now) == 0);
    }
}

/// Decay counts the whole intervals since the last maintenance, however many decays and
/// decaying reads of any assets are made in between at ledger times up to `now`: the
/// score of the asset at `now` is the one a single decay at `now` gives, and a decay or
/// read at `now` hands back that score.
pub proof fn law_decay_is_independent_of_checks(
    v: LifecycleView,
    asset_id: u64,
    checks: Seq<(u64, bool, bool, u64)>,
    update_on_zero: bool,
    now: u64,
)
    requires
        lifecycle_invariant(v),
        v.config is Some,
        forall|i: int| 0 <= i < checks.len() ==> last_update_of(v, asset_id) <= (#[trigger] checks[i]).3
            <= now,
        forall|i: int, j: int| 0 <= i <= j < checks.len() ==> (#[trigger] checks[i]).3 <= (
        #[trigger] checks[j]).3,
    ensures
        decayed_score(decay_checks(v, checks), asset_id, now) == decayed_score(v, asset_id, now),
        decay_result(decay_checks(v, checks), asset_id, update_on_zero, now) == decayed_score(
            v,
            asset_id,
            now,
        ),
        lifecycle_invariant(decay_checks(v, checks)),
        decay_checks(v, checks).config == v.config,
        checks.len() > 0 ==> last_update_of(decay_checks(v, checks), asset_id) <= checks.last().3,
    decreases checks.len(),
{
    if checks.len() > 0 {
        let p = checks.drop_last();
        let c = checks.last();
        assert forall|i: int| 0 <= i < p.len() implies last_update_of(v, asset_id) <= (
        #[trigger] p[i]).3 <= now by {
            assert(p[i] == checks[i]);
        }
        assert forall|i: int, j: int| 0 <= i <= j < p.len() implies (#[trigger] p[i]).3 <= (
        #[trigger] p[j]).3 by {
            assert(p[i] == checks[i] && p[j] == checks[j]);
        }
        law_decay_is_independent_of_checks(v, asset_id, p, update_on_zero, now);
        let u = decay_checks(v, p);
        assert(checks[checks.len() - 1] == c);
        assert(last_update_of(u, asset_id) <= c.3) by {
            if p.len() > 0 {
                assert(p.last() == checks[p.len() - 1]);
            }
        }
        lemma_decay_effect(u, c.0, c.1, c.2, c.3);
        if c.0 == asset_id {
            law_decay_ignores_intermediate_checks(u, asset_id, c.1, c.2, c.3, now);
        }
        lemma_decay_result_is_decayed(decay_checks(v, checks), asset_id, update_on_zero, now);
    } else {
        lemma_decay_result_is_decayed(v, asset_id, update_on_zero, now);
    }
}

/// Later checks of a batch keep the answers of earlier ones, and the state's settings.
proof fn lemma_fold_prefix(v: LifecycleView, asset_ids: Seq<u64>, now: u64, k: nat, n: nat)
    requires
        k < n,
    ensures
        eligibility_fold(v, asset_ids, now, n).0.len() == n,
        eligibility_fold(v, asset_ids, now, n).0[k as int] == eligibility_fold(v, asset_ids, now, k + 1).0[k as int],
        eligibility_fold(v, asset_ids, now, n).1.config == v.config,
        eligibility_fold(v, asset_ids, now, n).1.asset_registry == v.asset_registry,
    decreases n,
{
    let prev = eligibility_fold(v, asset_ids, now, (n - 1) as nat);
    assert(eligibility_fold(v, asset_ids, now, n).0 == prev.0.push(
        eligible(prev.1, decay_result(prev.1, asset_ids[n - 1], false, now)),
    ));
    if n > k + 1 {
        lemma_fold_prefix(v, asset_ids, now, k, (n - 1) as nat);
        assert(eligibility_fold(v, asset_ids, now, n).0[k as int] == prev.0[k as int]);
    } else if k > 0 {
        lemma_fold_prefix(v, asset_ids, now, (k - 1) as nat, k);
    }
}

/// A batch eligibility check is the single checks made one after the other: each answer
/// is what a single check would answer in the state the earlier checks left, each check
/// leaves the state a single check would, and a non-empty batch is refused exactly when
/// one of its single checks would be.
pub proof fn law_batch_eligibility_is_sequence_of_checks(
    v: LifecycleView,
    asset_ids: Seq<u64>,
    assets_found: Seq<bool>,
    now: u64,
)
    requires
        asset_ids.len() == assets_found.len(),
    ensures
        eligibility_fold(v, asset_ids, now, asset_ids.len()).0.len() == asset_ids.len(),
        forall|k: int|
            0 <= k < asset_ids.len() ==> {
                let s = #[trigger] checked_state(v, asset_ids, now, k);
                &&& eligibility_fold(v, asset_ids, now, asset_ids.len()).0[k] == eligible(
                    s,
                    decay_result(s, asset_ids[k], false, now),
                )
                &&& checked_state(v, asset_ids, now, k + 1) == decay_effect(
                    s,
                    asset_ids[k],
                    false,
                    false,
                    now,
                )
                &&& eligibility_error(s, assets_found[k]) == eligibility_error(v, assets_found[k])
            },
        asset_ids.len() > 0 ==> (batch_eligibility_error(v, assets_found) is None <==> forall|k: int|
            0 <= k < asset_ids.len() ==> #[trigger] eligibility_error(v, assets_found[k]) is None),
{
    let n = asset_ids.len();
    if n > 0 {
        lemma_fold_prefix(v, asset_ids, now, 0, n);
    }
    assert forall|k: int| 0 <= k < n implies {
        let s = #[trigger] checked_state(v, asset_ids, now, k);
        &&& eligibility_fold(v, asset_ids, now, n).0[k] == eligible(s, decay_result(s, asset_ids[k], false, now))
        &&& checked_state(v, asset_ids, now, k + 1) == decay_effect(s, asset_ids[k], false, false, now)
        &&& eligibility_error(s, assets_found[k]) == eligibility_error(v, assets_found[k])
    } by {
        lemma_fold_prefix(v, asset_ids, now, k as nat, n);
        lemma_fold_prefix(v, asset_ids, now, k as nat, (k + 1) as nat);
        if k > 0 {
            lemma_fold_prefix(v, asset_ids, now, (k - 1) as nat, k as nat);
        }
        assert(((k + 1) as nat - 1) as nat == k as nat);
    }
    if n > 0 {
        if batch_eligibility_error(v, assets_found) is None {
            assert forall|k: int| 0 <= k < n implies #[trigger] eligibility_error(v, assets_found[k]) is None by {
                assert(assets_found[k]);
            }
        } else {
            if v.asset_registry is Some && v.config is Some {
                let j = choose|j: int| 0 <= j < assets_found.len() && !#[trigger] assets_found[j];
                assert(eligibility_error(v, assets_found[j]) is Some);
            } else {
                assert(eligibility_error(v, assets_found[0]) is Some);
            }
        }
    }
}

/// The state after the first `k` records of a batch are submitted one at a time by
/// `engineer` at ledger time `now`.
pub open spec fn submit_sequence(
    v: LifecycleView,
    asset_id: u64,
    records: Seq<BatchRecord>,
    engineer: Address,
    now: u64,
    k: nat,
) -> LifecycleView
    decreases k,
{
    if k == 0 {
        v
    } else {
        submit_effect(
            submit_sequence(v, asset_id, records, engineer, now, (k - 1) as nat),
            asset_id,
            records[k - 1].task_type,
            records[k - 1].notes,
            engineer,
            now,
        )
    }
}

/// The first faulty record from `i` on is at `i` or later.
proof fn lemma_record_fault_not_before(c: crate::lifecycle::Config, records: Seq<BatchRecord>, i: int)
    requires
        0 <= i,
    ensures
        record_fault_from(c, records, i) >= i || record_fault_from(c, records, i) == records.len(),
        record_fault_from(c, records, i) >= 0,
    decreases records.len() - i,
{
    if i < records.len() && record_error(c, records, i) is None {
        lemma_record_fault_not_before(c, records, i + 1);
    }
}

/// Adding an asset twice to an engineer's list adds it once.
proof fn lemma_with_asset_twice(ids: Seq<u64>, asset_id: u64)
    ensures
        with_asset(with_asset(ids, asset_id), asset_id) == with_asset(ids, asset_id),
{
    if !ids.contains(asset_id) {
        assert(ids.push(asset_id)[ids.len() as int] == asset_id);
    }
}

/// Single submissions leave the pause flag and the settings as they were.
proof fn lemma_sequence_keeps_settings(
    v: LifecycleView,
    asset_id: u64,
    records: Seq<BatchRecord>,
    engineer: Address,
    now: u64,
    k: nat,
)
    ensures
        submit_sequence(v, asset_id, records, engineer, now, k).paused == v.paused,
        submit_sequence(v, asset_id, records, engineer, now, k).config == v.config,
    decreases k,
{
    if k > 0 {
        lemma_sequence_keeps_settings(v, asset_id, records, engineer, now, (k - 1) as nat);
    }
}

/// What the first `k` single submissions of a batch leave: the records appended in
/// order, the score and snapshots of the batch's first `k` steps, the decay anchor at
/// `now`, the asset on the engineer's list; everything else but the events as it was.
proof fn lemma_submit_sequence(
    v: LifecycleView,
    asset_id: u64,
    records: Seq<BatchRecord>,
    engineer: Address,
    now: u64,
    k: nat,
)
    requires
        lifecycle_invariant(v),
        v.config is Some,
        1 <= k <= records.len(),
        history_of(v, asset_id).len() + k <= v.config->0.max_history,
    ensures
        ({
            let s = submit_sequence(v, asset_id, records, engineer, now, k);
            let steps = batch_scores(
                decayed_score(v, asset_id, now),
                score_history_of(v, asset_id),
                records,
                now,
                v.config->0.max_history,
                k,
            );
            &&& s == (LifecycleView {
                histories: v.histories.insert(
                    asset_id,
                    history_of(v, asset_id) + batch_records(asset_id, records, engineer, now).take(k as int),
                ),
                engineer_histories: v.engineer_histories.insert(
                    engineer@,
                    with_asset(engineer_history_of(v, engineer@), asset_id),
                ),
                scores: v.scores.insert(asset_id, steps.0),
                score_histories: v.score_histories.insert(asset_id, steps.1),
                last_updates: v.last_updates.insert(asset_id, now),
                events: s.events,
                ..v
            })
        }),
    decreases k,
{
    let c = v.config->0;
    let added = batch_records(asset_id, records, engineer, now);
    if k == 1 {
        let s = submit_sequence(v, asset_id, records, engineer, now, 1);
        assert(submit_sequence(v, asset_id, records, engineer, now, 0) == v);
        assert(history_of(v, asset_id).push(added[0]) =~= history_of(v, asset_id) + added.take(1));
        let steps = batch_scores(decayed_score(v, asset_id, now), score_history_of(v, asset_id), records, now, c.max_history, 1);
        assert(batch_scores(decayed_score(v, asset_id, now), score_history_of(v, asset_id), records, now, c.max_history, 0)
            == (decayed_score(v, asset_id, now), score_history_of(v, asset_id)));
        assert(s.histories =~= v.histories.insert(asset_id, history_of(v, asset_id) + added.take(1)));
    } else {
        let m = (k - 1) as nat;
        lemma_submit_sequence(v, asset_id, records, engineer, now, m);
        let p = submit_sequence(v, asset_id, records, engineer, now, m);
        let s = submit_sequence(v, asset_id, records, engineer, now, k);
        let prev = batch_scores(decayed_score(v, asset_id, now), score_history_of(v, asset_id), records, now, c.max_history, m);
        assert(last_update_of(p, asset_id) == now);
        let d = c.decay_interval;
        assert(d > 0);
        assert(0u64 / d == 0) by (nonlinear_arith)
            requires
                d > 0,
        ;
        assert(decay_intervals(p, asset_id, now) == 0);
        assert(decayed_score(p, asset_id, now) == score_of(p, asset_id));
        assert(score_of(p, asset_id) == prev.0);
        assert(score_history_of(p, asset_id) == prev.1);
        lemma_with_asset_twice(engineer_history_of(v, engineer@), asset_id);
        assert(engineer_history_of(p, engineer@) == with_asset(engineer_history_of(v, engineer@), asset_id));
        assert(history_of(p, asset_id) == history_of(v, asset_id) + added.take(m as int));
        assert(history_of(p, asset_id).push(added[m as int]) =~= history_of(v, asset_id) + added.take(k as int));
        assert(s.histories =~= v.histories.insert(asset_id, history_of(v, asset_id) + added.take(k as int)));
        assert(s.engineer_histories =~= v.engineer_histories.insert(
            engineer@,
            with_asset(engineer_history_of(v, engineer@), asset_id),
        ));
        assert(s.scores =~= v.scores.insert(
            asset_id,
            batch_scores(decayed_score(v, asset_id, now), score_history_of(v, asset_id), records, now, c.max_history, k).0,
        ));
        assert(s.score_histories =~= v.score_histories.insert(
            asset_id,
            batch_scores(decayed_score(v, asset_id, now), score_history_of(v, asset_id), records, now, c.max_history, k).1,
        ));
        assert(s.last_updates =~= v.last_updates.insert(asset_id, now));
    }
}

/// A batch submission is the single submissions of its records made one after the
/// other: it succeeds exactly when each of them would succeed in the state the earlier
/// ones left, and it then leaves the state they leave, but for the events.
pub proof fn law_batch_submission_is_sequence_of_submissions(
    v: LifecycleView,
    asset_id: u64,
    records: Seq<BatchRecord>,
    engineer: Address,
    now: u64,
    found: bool,
    verified_engineer: bool,
)
    requires
        lifecycle_invariant(v),
        records.len() > 0,
    ensures
        batch_submit_error(v, asset_id, records, found, verified_engineer) is None <==> forall|k: int|
            0 <= k < records.len() ==> #[trigger] submit_error(
                submit_sequence(v, asset_id, records, engineer, now, k as nat),
                asset_id,
                records[k].task_type@,
                records[k].notes@,
                found,
                verified_engineer,
            ) is None,
        batch_submit_error(v, asset_id, records, found, verified_engineer) is None ==> batch_submit_effect(
            v,
            asset_id,
            records,
            engineer,
            now,
        ) == (LifecycleView {
            events: batch_submit_effect(v, asset_id, records, engineer, now).events,
            ..submit_sequence(v, asset_id, records, engineer, now, records.len())
        }),
{
    let n = records.len();
    if v.config is Some {
        let c = v.config->0;
        lemma_record_fault_is_fault(c, records, 0);
        // the state each single submission meets: history grown by the earlier records
        assert forall|k: int| 0 <= k < n implies ({
            let s = #[trigger] submit_sequence(v, asset_id, records, engineer, now, k as nat);
            &&& s.paused == v.paused
            &&& s.config == v.config
            &&& history_of(v, asset_id).len() + k <= c.max_history ==> history_of(s, asset_id).len()
                == history_of(v, asset_id).len() + k
        }) by {
            lemma_sequence_keeps_settings(v, asset_id, records, engineer, now, k as nat);
            if k > 0 && history_of(v, asset_id).len() + k <= c.max_history {
                lemma_submit_sequence(v, asset_id, records, engineer, now, k as nat);
            }
        }
        if batch_submit_error(v, asset_id, records, found, verified_engineer) is None {
            assert forall|k: int| 0 <= k < n implies #[trigger] submit_error(
                submit_sequence(v, asset_id, records, engineer, now, k as nat),
                asset_id,
                records[k].task_type@,
                records[k].notes@,
                found,
                verified_engineer,
            ) is None by {
                lemma_no_record_fault(c, records, 0, k);
            }
            lemma_submit_sequence(v, asset_id, records, engineer, now, n);
            assert(batch_records(asset_id, records, engineer, now).take(n as int) =~= batch_records(
                asset_id,
                records,
                engineer,
                now,
            ));
        } else if !v.paused {
            let f = record_fault_from(c, records, 0);
            lemma_record_fault_not_before(c, records, 0);
            if f < n {
                assert(record_error(c, records, f) is Some);
                assert(submit_error(
                    submit_sequence(v, asset_id, records, engineer, now, f as nat),
                    asset_id,
                    records[f].task_type@,
                    records[f].notes@,
                    found,
                    verified_engineer,
                ) is Some);
            } else {
                let z: int = 0;
                let at_cap: int = if history_of(v, asset_id).len() >= c.max_history {
                    0
                } else {
                    c.max_history - history_of(v, asset_id).len()
                };
                if !found || !verified_engineer {
                    assert(submit_error(
                        submit_sequence(v, asset_id, records, engineer, now, z as nat),
                        asset_id,
                        records[z].task_type@,
                        records[z].notes@,
                        found,
                        verified_engineer,
                    ) is Some);
                } else {
                    assert(submit_error(
                        submit_sequence(v, asset_id, records, engineer, now, at_cap as nat),
                        asset_id,
                        records[at_cap].task_type@,
                        records[at_cap].notes@,
                        found,
                        verified_engineer,
                    ) is Some);
                }
            }
        } else {
            let z: int = 0;
            assert(submit_error(
                submit_sequence(v, asset_id, records, engineer, now, z as nat),
                asset_id,
                records[z].task_type@,
                records[z].notes@,
                found,
                verified_engineer,
            ) is Some);
        }
    } else {
        let z: int = 0;
        assert(submit_sequence(v, asset_id, records, engineer, now, z as nat) == v);
        assert(submit_error(
            submit_sequence(v, asset_id, records, engineer, now, z as nat),
            asset_id,
            records[z].task_type@,
            records[z].notes@,
            found,
            verified_engineer,
        ) is Some);
    }
}

} // verus!
