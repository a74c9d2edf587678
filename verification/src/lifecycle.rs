//! The life-cycle contract: maintenance records submitted by verified engineers, and the
//! collateral score that they build up and that decays with time.
//!
//! The contract consults the asset registry (does an asset exist?) and the engineer
//! registry (is an engineer verified now?). Those answers come from other contracts, and
//! the entry points here take them as arguments.

use vstd::prelude::*;

use crate::asset_registry;
use crate::paging::{copy_all, page, page_fits, page_spec, tail, tail_spec, Duplicate};
use crate::table::Table;
use crate::{Address, Symbol};

verus! {

/// The failures of the life-cycle contract.
#[derive(Clone, Copy, Debug, PartialEq, Eq, Structural)]
pub enum ContractError {
    NoMaintenanceHistory,
    UnauthorizedEngineer,
    UnauthorizedAdmin,
    HistoryCapReached,
    AssetNotFound,
    NotInitialized,
    AlreadyInitialized,
    InvalidConfig,
    Paused,
    InvalidTaskType,
    PendingAdminAlreadyExists,
}

/// The failure of a read that asks the asset registry for the asset: this contract's
/// own error, or the registry's refusal, which the read passes on.
#[derive(Clone, Copy, Debug, PartialEq, Eq, Structural)]
pub enum QueryError {
    Lifecycle(ContractError),
    Registry(asset_registry::ContractError),
}

/// One maintenance task performed on an asset.
#[derive(Debug, PartialEq, Eq)]
pub struct MaintenanceRecord {
    pub asset_id: u64,
    pub task_type: Symbol,
    pub notes: String,
    pub engineer: Address,
    pub timestamp: u64,
}

impl Duplicate for MaintenanceRecord {
    fn duplicate(&self) -> (copy: Self) {
        MaintenanceRecord {
            asset_id: self.asset_id,
            task_type: self.task_type.clone(),
            notes: self.notes.clone(),
            engineer: self.engineer.clone(),
            timestamp: self.timestamp,
        }
    }
}

/// A point-in-time snapshot of the collateral score, recorded at each maintenance event.
#[derive(Clone, Copy, Debug, PartialEq, Eq, Structural)]
pub struct ScoreEntry {
    pub timestamp: u64,
    pub score: u32,
}

impl Duplicate for ScoreEntry {
    fn duplicate(&self) -> (copy: Self) {
        *self
    }
}

/// One task of a batch submission.
#[derive(Debug, PartialEq, Eq)]
pub struct BatchRecord {
    pub task_type: Symbol,
    pub notes: String,
}

/// The contract's settings.
#[derive(Debug, PartialEq, Eq)]
pub struct Config {
    pub admin: Address,
    pub max_history: u32,
    pub score_increment: u32,
    pub decay_rate: u32,
    pub decay_interval: u64,
    pub eligibility_threshold: u32,
    pub max_notes_length: u32,
}

impl Duplicate for Config {
    fn duplicate(&self) -> (copy: Self) {
        Config {
            admin: self.admin.clone(),
            max_history: self.max_history,
            score_increment: self.score_increment,
            decay_rate: self.decay_rate,
            decay_interval: self.decay_interval,
            eligibility_threshold: self.eligibility_threshold,
            max_notes_length: self.max_notes_length,
        }
    }
}

/// What the contract publishes when its state changes.
#[derive(Debug, PartialEq, Eq)]
pub enum LifecycleEvent {
    /// `INIT`
    Initialized { asset_registry: Address, engineer_registry: Address, admin: Address },
    /// `UPD_MAX`
    MaxHistoryUpdated { admin: Address, max_history: u32 },
    /// `MAINT`
    MaintenanceSubmitted { asset_id: u64, task_type: Symbol, engineer: Address, timestamp: u64 },
    /// `VAL_IDX`
    RecordValidated { index: u32 },
    /// `DECAY`
    ScoreDecayed { asset_id: u64, old_score: u32, new_score: u32, timestamp: u64 },
    /// `REG_AST`
    AssetRegistryUpdated { admin: Address, registry: Address },
    /// `REG_ENG`
    EngineerRegistryUpdated { admin: Address, registry: Address },
    /// `UPGRADE`
    Upgraded { admin: Address, wasm_hash: [u8; 32] },
    /// `RST_SCR`
    ScoreReset { asset_id: u64, admin: Address, timestamp: u64 },
    /// `PRUNE`
    HistoryPruned { admin: Address, asset_id: u64 },
}

/// The default cap on maintenance records per asset.
pub const DEFAULT_MAX_HISTORY: u32 = 200;

/// The default score increment.
pub const DEFAULT_SCORE_INCREMENT: u32 = 5;

/// The default number of points lost per decay interval.
pub const DEFAULT_DECAY_RATE: u32 = 5;

/// The default decay interval: thirty days, in seconds.
pub const DEFAULT_DECAY_INTERVAL: u64 = 2592000;

/// The default score at which an asset becomes eligible as collateral.
pub const DEFAULT_ELIGIBILITY_THRESHOLD: u32 = 50;

/// The default cap on the length of maintenance notes, in bytes.
pub const DEFAULT_MAX_NOTES_LENGTH: u32 = 256;

/// The highest collateral score.
pub const MAX_SCORE: u32 = 100;

/// The contract's state, as it keeps it in storage.
pub struct Lifecycle {
    config: Option<Config>,
    asset_registry: Option<Address>,
    engineer_registry: Option<Address>,
    paused: bool,
    pending_admin: Option<Address>,
    histories: Table<u64, Vec<MaintenanceRecord>>,
    scores: Table<u64, u32>,
    score_histories: Table<u64, Vec<ScoreEntry>>,
    last_updates: Table<u64, u64>,
    engineer_histories: Table<Address, Vec<u64>>,
    events: Vec<LifecycleEvent>,
}

/// The contract's state as mathematical values.
pub struct LifecycleView {
    pub config: Option<Config>,
    pub asset_registry: Option<Seq<char>>,
    pub engineer_registry: Option<Seq<char>>,
    pub paused: bool,
    pub pending_admin: Option<Seq<char>>,
    /// asset id to its maintenance records, oldest first
    pub histories: Map<u64, Seq<MaintenanceRecord>>,
    /// asset id to its collateral score
    pub scores: Map<u64, u32>,
    /// asset id to the snapshots of its score, oldest first
    pub score_histories: Map<u64, Seq<ScoreEntry>>,
    /// asset id to its decay anchor: the ledger time of its last maintenance, moved
    /// forward by the whole intervals decayed since
    pub last_updates: Map<u64, u64>,
    /// engineer to the assets the engineer has maintained, in order, each once
    pub engineer_histories: Map<Seq<char>, Seq<u64>>,
    /// everything published so far, oldest first
    pub events: Seq<LifecycleEvent>,
}

pub open spec fn address_view(a: Option<Address>) -> Option<Seq<char>> {
    match a {
        Some(x) => Some(x@),
        None => None,
    }
}

impl View for Lifecycle {
    type V = LifecycleView;

    closed spec fn view(&self) -> LifecycleView {
        LifecycleView {
            config: self.config,
            asset_registry: address_view(self.asset_registry),
            engineer_registry: address_view(self.engineer_registry),
            paused: self.paused,
            pending_admin: address_view(self.pending_admin),
            histories: self.histories@.map_values(|h: Vec<MaintenanceRecord>| h@),
            scores: self.scores@,
            score_histories: self.score_histories@.map_values(|h: Vec<ScoreEntry>| h@),
            last_updates: self.last_updates@,
            engineer_histories: self.engineer_histories@.map_values(|h: Vec<u64>| h@),
            events: self.events@,
        }
    }
}

/// The maintenance records of an asset (none where it has no history).
pub open spec fn history_of(v: LifecycleView, asset_id: u64) -> Seq<MaintenanceRecord> {
    if v.histories.contains_key(asset_id) {
        v.histories[asset_id]
    } else {
        Seq::empty()
    }
}

/// The collateral score of an asset as stored (zero where none is stored).
pub open spec fn score_of(v: LifecycleView, asset_id: u64) -> u32 {
    if v.scores.contains_key(asset_id) {
        v.scores[asset_id]
    } else {
        0
    }
}

/// The score snapshots of an asset (none where it has none).
pub open spec fn score_history_of(v: LifecycleView, asset_id: u64) -> Seq<ScoreEntry> {
    if v.score_histories.contains_key(asset_id) {
        v.score_histories[asset_id]
    } else {
        Seq::empty()
    }
}

/// The decay anchor of an asset: the ledger time of its last maintenance, moved forward
/// by the whole intervals decayed since (zero where there is none).
pub open spec fn last_update_of(v: LifecycleView, asset_id: u64) -> u64 {
    if v.last_updates.contains_key(asset_id) {
        v.last_updates[asset_id]
    } else {
        0
    }
}

/// The assets an engineer has maintained (none where there are none).
pub open spec fn engineer_history_of(v: LifecycleView, engineer: Seq<char>) -> Seq<u64> {
    if v.engineer_histories.contains_key(engineer) {
        v.engineer_histories[engineer]
    } else {
        Seq::empty()
    }
}

/// `ids` with `asset_id` added at the end, unless it is there already.
pub open spec fn with_asset(ids: Seq<u64>, asset_id: u64) -> Seq<u64> {
    if ids.contains(asset_id) {
        ids
    } else {
        ids.push(asset_id)
    }
}

/// A score history with `entry` added at the end, the oldest snapshots giving way so
/// that at most `max_history` remain (a history longer than a lowered cap is cut to it
/// at this write).
pub open spec fn pushed_entry(h: Seq<ScoreEntry>, entry: ScoreEntry, max_history: u32) -> Seq<
    ScoreEntry,
> {
    if max_history > 0 && h.len() >= max_history {
        tail_spec(h, max_history - 1).push(entry)
    } else {
        h.push(entry)
    }
}

/// The points a maintenance task earns, by tier; tasks of no tier are not accepted.
pub open spec fn task_weight(task_type: Seq<char>) -> Option<u32> {
    if task_type == "OIL_CHG"@ || task_type == "LUBE"@ || task_type == "INSPECT"@ {
        Some(2)
    } else if task_type == "FILTER"@ || task_type == "TUNE_UP"@ || task_type == "BRAKE"@ {
        Some(5)
    } else if task_type == "ENGINE"@ || task_type == "OVERHAUL"@ || task_type == "REBUILD"@ {
        Some(10)
    } else {
        None
    }
}

/// The length of a contract string in bytes.
pub open spec fn byte_len(s: Seq<char>) -> usize {
    vstd::utf8::encode_utf8(s).len() as usize
}

/// A score raised by `weight` points, capped at the highest score.
pub open spec fn raised(score: int, weight: int) -> int {
    if score + weight < MAX_SCORE {
        score + weight
    } else {
        MAX_SCORE as int
    }
}

/// What holds of the contract's state between calls.
pub open spec fn lifecycle_invariant(v: LifecycleView) -> bool {
    &&& v.config is Some <==> v.asset_registry is Some
    &&& v.config is Some <==> v.engineer_registry is Some
    &&& v.pending_admin is Some ==> v.config is Some
    &&& v.config is Some ==> v.config->0.max_history > 0 && v.config->0.decay_interval > 0
    &&& forall|id: u64| #[trigger] v.scores.contains_key(id) ==> v.scores[id] <= MAX_SCORE
    &&& forall|e: Seq<char>| #[trigger]
        v.engineer_histories.contains_key(e) ==> v.engineer_histories[e].no_duplicates()
}

/// Why a call that only the admin may make is refused, if it is.
pub open spec fn admin_error(v: LifecycleView, caller: Seq<char>) -> Option<ContractError> {
    match v.config {
        None => Some(ContractError::NotInitialized),
        Some(c) => if c.admin@ == caller {
            None
        } else {
            Some(ContractError::UnauthorizedAdmin)
        },
    }
}

/// Why a call that only the admin may make, and not while paused, is refused, if it is.
pub open spec fn unpaused_admin_error(v: LifecycleView, caller: Seq<char>) -> Option<ContractError> {
    if v.paused {
        Some(ContractError::Paused)
    } else {
        admin_error(v, caller)
    }
}

/// Why a settings change whose new value must pass `valid` is refused, if it is: the
/// value is checked before the caller.
pub open spec fn setting_error(v: LifecycleView, caller: Seq<char>, valid: bool) -> Option<
    ContractError,
> {
    if v.paused {
        Some(ContractError::Paused)
    } else if !valid {
        Some(ContractError::InvalidConfig)
    } else {
        admin_error(v, caller)
    }
}

/// The settings of a freshly initialised contract.
pub open spec fn initial_config(admin: Address, max_history: u32) -> Config {
    Config {
        admin: admin,
        max_history: if max_history == 0 {
            DEFAULT_MAX_HISTORY
        } else {
            max_history
        },
        score_increment: DEFAULT_SCORE_INCREMENT,
        decay_rate: DEFAULT_DECAY_RATE,
        decay_interval: DEFAULT_DECAY_INTERVAL,
        eligibility_threshold: DEFAULT_ELIGIBILITY_THRESHOLD,
        max_notes_length: DEFAULT_MAX_NOTES_LENGTH,
    }
}

/// The points of a known task type.
fn get_task_weight(task_type: &Symbol) -> (r: Option<u32>)
    ensures
        r == task_weight(task_type@),
{
    if *task_type == "OIL_CHG".to_owned() || *task_type == "LUBE".to_owned() || *task_type
        == "INSPECT".to_owned() {
        Some(2)
    } else if *task_type == "FILTER".to_owned() || *task_type == "TUNE_UP".to_owned()
        || *task_type == "BRAKE".to_owned() {
        Some(5)
    } else if *task_type == "ENGINE".to_owned() || *task_type == "OVERHAUL".to_owned()
        || *task_type == "REBUILD".to_owned() {
        Some(10)
    } else {
        None
    }
}

/// The length of `notes` in bytes.
fn notes_length(notes: &String) -> (r: usize)
    ensures
        r == byte_len(notes@),
{
    let text = notes.as_str();
    text.len()
}

/// A score history with `entry` added under a cap of `max_history`.
fn push_snapshot(snapshots: Vec<ScoreEntry>, entry: ScoreEntry, max_history: u32) -> (r: Vec<
    ScoreEntry,
>)
    ensures
        r@ == pushed_entry(snapshots@, entry, max_history),
{
    let mut kept = if max_history > 0 && snapshots.len() >= max_history as usize {
        tail(&snapshots, (max_history - 1) as u64)
    } else {
        snapshots
    };
    kept.push(entry);
    kept
}

/// Why a maintenance submission is refused, if it is; `asset_found` and
/// `engineer_verified` are the registries' answers for the asset and the engineer.
pub open spec fn submit_error(
    v: LifecycleView,
    asset_id: u64,
    task_type: Seq<char>,
    notes: Seq<char>,
    asset_found: bool,
    engineer_verified: bool,
) -> Option<ContractError> {
    if v.paused {
        Some(ContractError::Paused)
    } else if v.config is None {
        Some(ContractError::NotInitialized)
    } else if byte_len(notes) > v.config->0.max_notes_length {
        Some(ContractError::InvalidConfig)
    } else if task_weight(task_type) is None {
        Some(ContractError::InvalidTaskType)
    } else if !asset_found {
        Some(ContractError::AssetNotFound)
    } else if !engineer_verified {
        Some(ContractError::UnauthorizedEngineer)
    } else if history_of(v, asset_id).len() >= v.config->0.max_history {
        Some(ContractError::HistoryCapReached)
    } else {
        None
    }
}

/// The state after `engineer` records a task of `task_type` on asset `asset_id` at
/// ledger time `now`: the record is appended, the score decayed to `now` and then
/// raised by the task's points (up to the cap) and snapshotted, and the decay anchor set
/// to `now`.
pub open spec fn submit_effect(
    v: LifecycleView,
    asset_id: u64,
    task_type: Symbol,
    notes: String,
    engineer: Address,
    now: u64,
) -> LifecycleView {
    let c = v.config->0;
    let score = raised(decayed_score(v, asset_id, now) as int, task_weight(task_type@)->0 as int) as u32;
    LifecycleView {
        histories: v.histories.insert(
            asset_id,
            history_of(v, asset_id).push(
                MaintenanceRecord {
                    asset_id: asset_id,
                    task_type: task_type,
                    notes: notes,
                    engineer: engineer,
                    timestamp: now,
                },
            ),
        ),
        engineer_histories: v.engineer_histories.insert(
            engineer@,
            with_asset(engineer_history_of(v, engineer@), asset_id),
        ),
        scores: v.scores.insert(asset_id, score),
        score_histories: v.score_histories.insert(
            asset_id,
            pushed_entry(
                score_history_of(v, asset_id),
                ScoreEntry { timestamp: now, score: score },
                c.max_history,
            ),
        ),
        last_updates: v.last_updates.insert(asset_id, now),
        events: v.events.push(
            LifecycleEvent::MaintenanceSubmitted {
                asset_id: asset_id,
                task_type: task_type,
                engineer: engineer,
                timestamp: now,
            },
        ),
        ..v
    }
}

/// What is wrong with record `i` of a batch, if anything.
pub open spec fn record_error(c: Config, records: Seq<BatchRecord>, i: int) -> Option<
    ContractError,
> {
    if byte_len(records[i].notes@) > c.max_notes_length {
        Some(ContractError::InvalidConfig)
    } else if task_weight(records[i].task_type@) is None {
        Some(ContractError::InvalidTaskType)
    } else {
        None
    }
}

/// The first faulty record of a batch from record `i` on, or the batch's length.
pub open spec fn record_fault_from(c: Config, records: Seq<BatchRecord>, i: int) -> int
    decreases records.len() - i,
{
    if i < 0 || i >= records.len() {
        records.len() as int
    } else if record_error(c, records, i) is Some {
        i
    } else {
        record_fault_from(c, records, i + 1)
    }
}

/// Why a batch submission is refused, if it is: every record is checked before the
/// registries' answers and the history cap.
pub open spec fn batch_submit_error(
    v: LifecycleView,
    asset_id: u64,
    records: Seq<BatchRecord>,
    asset_found: bool,
    engineer_verified: bool,
) -> Option<ContractError> {
    if v.paused {
        Some(ContractError::Paused)
    } else if v.config is None {
        Some(ContractError::NotInitialized)
    } else if record_fault_from(v.config->0, records, 0) < records.len() {
        record_error(v.config->0, records, record_fault_from(v.config->0, records, 0))
    } else if !asset_found {
        Some(ContractError::AssetNotFound)
    } else if !engineer_verified {
        Some(ContractError::UnauthorizedEngineer)
    } else if history_of(v, asset_id).len() + records.len() > v.config->0.max_history {
        Some(ContractError::HistoryCapReached)
    } else {
        None
    }
}

/// The score and score history after the first `k` records of a batch, each raising the
/// score by its points and snapshotting it.
pub open spec fn batch_scores(
    score: u32,
    history: Seq<ScoreEntry>,
    records: Seq<BatchRecord>,
    now: u64,
    max_history: u32,
    k: nat,
) -> (u32, Seq<ScoreEntry>)
    decreases k,
{
    if k == 0 {
        (score, history)
    } else {
        let prev = batch_scores(score, history, records, now, max_history, (k - 1) as nat);
        let s = raised(prev.0 as int, task_weight(records[k - 1].task_type@)->0 as int) as u32;
        (s, pushed_entry(prev.1, ScoreEntry { timestamp: now, score: s }, max_history))
    }
}

/// The maintenance records that a batch appends.
pub open spec fn batch_records(
    asset_id: u64,
    records: Seq<BatchRecord>,
    engineer: Address,
    now: u64,
) -> Seq<MaintenanceRecord> {
    Seq::new(
        records.len(),
        |i: int|
            MaintenanceRecord {
                asset_id: asset_id,
                task_type: records[i].task_type,
                notes: records[i].notes,
                engineer: engineer,
                timestamp: now,
            },
    )
}

/// The events announcing that each of `n` records passed its checks.
pub open spec fn validation_events(n: nat) -> Seq<LifecycleEvent> {
    Seq::new(n, |i: int| LifecycleEvent::RecordValidated { index: i as u32 })
}

/// The state after a batch of records is submitted by `engineer` at ledger time `now`:
/// the score is decayed to `now` once, then each record is appended and raises the
/// score by its points, snapshotted; an empty batch changes nothing.
pub open spec fn batch_submit_effect(
    v: LifecycleView,
    asset_id: u64,
    records: Seq<BatchRecord>,
    engineer: Address,
    now: u64,
) -> LifecycleView {
    let c = v.config->0;
    let scores = batch_scores(
        decayed_score(v, asset_id, now),
        score_history_of(v, asset_id),
        records,
        now,
        c.max_history,
        records.len(),
    );
    if records.len() == 0 {
        v
    } else {
        LifecycleView {
            histories: v.histories.insert(
                asset_id,
                history_of(v, asset_id) + batch_records(asset_id, records, engineer, now),
            ),
            engineer_histories: v.engineer_histories.insert(
                engineer@,
                with_asset(engineer_history_of(v, engineer@), asset_id),
            ),
            scores: v.scores.insert(asset_id, scores.0),
            score_histories: v.score_histories.insert(asset_id, scores.1),
            last_updates: v.last_updates.insert(asset_id, now),
            events: v.events + validation_events(records.len()),
            ..v
        }
    }
}


/// The number of whole decay intervals since the asset's decay anchor (its last
/// maintenance, moved forward by the intervals already decayed), at ledger time `now`
/// (none where `now` is earlier).
pub open spec fn decay_intervals(v: LifecycleView, asset_id: u64, now: u64) -> u64 {
    let last = last_update_of(v, asset_id);
    let elapsed: u64 = if now >= last {
        (now - last) as u64
    } else {
        0
    };
    elapsed / v.config->0.decay_interval
}

/// Whether a decay at `now` changes anything: the score is positive, and a whole
/// interval has passed or the caller asks for an update regardless.
pub open spec fn decay_applies(v: LifecycleView, asset_id: u64, update_on_zero: bool, now: u64) -> bool {
    score_of(v, asset_id) != 0 && (decay_intervals(v, asset_id, now) != 0 || update_on_zero)
}

/// The points lost at `now`: the decay rate for each whole interval elapsed.
pub open spec fn total_decay(v: LifecycleView, asset_id: u64, now: u64) -> int {
    decay_intervals(v, asset_id, now) as int * v.config->0.decay_rate as int
}

/// The score after the points lost at `now` are taken off (not below zero).
pub open spec fn decayed_score(v: LifecycleView, asset_id: u64, now: u64) -> u32 {
    let s = score_of(v, asset_id) as int;
    let t = total_decay(v, asset_id, now);
    if s >= t {
        (s - t) as u32
    } else {
        0
    }
}

/// The decay anchor after a decay at `now`: moved forward by the whole intervals that
/// were decayed, so that a part of an interval is not lost.
pub open spec fn advanced_anchor(v: LifecycleView, asset_id: u64, now: u64) -> u64 {
    (last_update_of(v, asset_id) + decay_intervals(v, asset_id, now) * v.config->0.decay_interval) as u64
}

/// The score that a decay at `now` hands back.
pub open spec fn decay_result(v: LifecycleView, asset_id: u64, update_on_zero: bool, now: u64) -> u32 {
    if decay_applies(v, asset_id, update_on_zero, now) {
        decayed_score(v, asset_id, now)
    } else {
        score_of(v, asset_id)
    }
}

/// The state after a decay at `now`: the decayed score is stored and snapshotted, the
/// decay anchor moved forward by the whole intervals decayed, and, where `emit` is set,
/// the decay announced.
pub open spec fn decay_effect(
    v: LifecycleView,
    asset_id: u64,
    emit: bool,
    update_on_zero: bool,
    now: u64,
) -> LifecycleView {
    if !decay_applies(v, asset_id, update_on_zero, now) {
        v
    } else {
        let s = decayed_score(v, asset_id, now);
        LifecycleView {
            scores: v.scores.insert(asset_id, s),
            last_updates: v.last_updates.insert(asset_id, advanced_anchor(v, asset_id, now)),
            score_histories: v.score_histories.insert(
                asset_id,
                pushed_entry(
                    score_history_of(v, asset_id),
                    ScoreEntry { timestamp: now, score: s },
                    v.config->0.max_history,
                ),
            ),
            events: if emit {
                v.events.push(
                    LifecycleEvent::ScoreDecayed {
                        asset_id: asset_id,
                        old_score: score_of(v, asset_id),
                        new_score: s,
                        timestamp: now,
                    },
                )
            } else {
                v.events
            },
            ..v
        }
    }
}

/// Why a read of an asset's collateral score is refused, if it is.
pub open spec fn score_read_error(v: LifecycleView, asset_found: bool) -> Option<ContractError> {
    if v.asset_registry is None {
        Some(ContractError::NotInitialized)
    } else if !asset_found {
        Some(ContractError::AssetNotFound)
    } else if v.config is None {
        Some(ContractError::NotInitialized)
    } else {
        None
    }
}

/// Why an eligibility check is refused, if it is: the asset registry's refusal of an
/// unknown asset is passed on.
pub open spec fn eligibility_error(v: LifecycleView, asset_found: bool) -> Option<QueryError> {
    if v.asset_registry is None {
        Some(QueryError::Lifecycle(ContractError::NotInitialized))
    } else if !asset_found {
        Some(QueryError::Registry(asset_registry::ContractError::AssetNotFound))
    } else if v.config is None {
        Some(QueryError::Lifecycle(ContractError::NotInitialized))
    } else {
        None
    }
}

/// Whether a score makes an asset eligible as collateral.
pub open spec fn eligible(v: LifecycleView, score: u32) -> bool {
    score >= v.config->0.eligibility_threshold
}

/// The answers and the state after checking the first `k` assets of a batch, each
/// check decaying the asset's score first.
pub open spec fn eligibility_fold(v: LifecycleView, asset_ids: Seq<u64>, now: u64, k: nat) -> (
    Seq<bool>,
    LifecycleView,
)
    decreases k,
{
    if k == 0 {
        (Seq::empty(), v)
    } else {
        let prev = eligibility_fold(v, asset_ids, now, (k - 1) as nat);
        let id = asset_ids[k - 1];
        (
            prev.0.push(eligible(prev.1, decay_result(prev.1, id, false, now))),
            decay_effect(prev.1, id, false, false, now),
        )
    }
}

/// The state after checking the first `k` assets of a batch.
pub open spec fn checked_state(v: LifecycleView, asset_ids: Seq<u64>, now: u64, k: int) -> LifecycleView {
    eligibility_fold(v, asset_ids, now, k as nat).1
}

/// Why a batch eligibility check is refused, if it is.
pub open spec fn batch_eligibility_error(v: LifecycleView, assets_found: Seq<bool>) -> Option<
    QueryError,
> {
    if assets_found.len() == 0 {
        None
    } else if v.asset_registry is None {
        Some(QueryError::Lifecycle(ContractError::NotInitialized))
    } else if exists|i: int| 0 <= i < assets_found.len() && !#[trigger] assets_found[i] {
        Some(QueryError::Registry(asset_registry::ContractError::AssetNotFound))
    } else if v.config is None {
        Some(QueryError::Lifecycle(ContractError::NotInitialized))
    } else {
        None
    }
}

/// The ledger time of the most recent maintenance of an asset: the timestamp of its
/// latest record, if it has any.
pub open spec fn last_service_time(v: LifecycleView, asset_id: u64) -> Option<u64> {
    let h = history_of(v, asset_id);
    if h.len() == 0 {
        None
    } else {
        Some(h[latest_among(h, h.len() as int)].timestamp)
    }
}

/// The record with the latest timestamp among the first `k` of `h`, the earliest such
/// where several share it.
pub open spec fn latest_among(h: Seq<MaintenanceRecord>, k: int) -> int
    decreases k,
{
    if k <= 1 {
        0
    } else {
        let best = latest_among(h, k - 1);
        if h[k - 1].timestamp > h[best].timestamp {
            k - 1
        } else {
            best
        }
    }
}

/// A decay keeps the invariant.
pub proof fn lemma_decay_effect(v: LifecycleView, asset_id: u64, emit: bool, update_on_zero: bool, now: u64)
    requires
        lifecycle_invariant(v),
        v.config is Some,
    ensures
        lifecycle_invariant(decay_effect(v, asset_id, emit, update_on_zero, now)),
        decay_result(v, asset_id, update_on_zero, now) <= score_of(v, asset_id),
        decayed_score(v, asset_id, now) <= score_of(v, asset_id),
{
    let n = decay_intervals(v, asset_id, now) as int;
    let r = v.config->0.decay_rate as int;
    assert(n * r >= 0) by (nonlinear_arith)
        requires
            n >= 0,
            r >= 0,
    ;
}

/// The state after `admin` prunes asset `asset_id`: its records and its snapshots are
/// each cut to the latest `max_history` where they are longer.
pub open spec fn prune_effect(v: LifecycleView, admin: Address, asset_id: u64) -> LifecycleView {
    let max = v.config->0.max_history as int;
    LifecycleView {
        histories: if v.histories.contains_key(asset_id) && v.histories[asset_id].len() > max {
            v.histories.insert(asset_id, tail_spec(v.histories[asset_id], max))
        } else {
            v.histories
        },
        score_histories: if v.score_histories.contains_key(asset_id)
            && v.score_histories[asset_id].len() > max {
            v.score_histories.insert(asset_id, tail_spec(v.score_histories[asset_id], max))
        } else {
            v.score_histories
        },
        events: v.events.push(LifecycleEvent::HistoryPruned { admin: admin, asset_id: asset_id }),
        ..v
    }
}

/// Adding an asset to a list that holds each asset once.
pub proof fn lemma_with_asset(ids: Seq<u64>, asset_id: u64)
    requires
        ids.no_duplicates(),
    ensures
        with_asset(ids, asset_id).no_duplicates(),
        with_asset(ids, asset_id).contains(asset_id),
{
    if !ids.contains(asset_id) {
        let r = ids.push(asset_id);
        assert forall|i: int, j: int|
            0 <= i < r.len() && 0 <= j < r.len() && i != j implies r[i] != r[j] by {
            if i < ids.len() && j < ids.len() {
            } else if i < ids.len() {
                assert(ids.contains(ids[i]));
            } else {
                assert(ids.contains(ids[j]));
            }
        }
        assert(r[ids.len() as int] == asset_id);
    }
}

/// Scores stay within bounds along a batch.
pub proof fn lemma_batch_scores_bounded(
    score: u32,
    history: Seq<ScoreEntry>,
    records: Seq<BatchRecord>,
    now: u64,
    max_history: u32,
    k: nat,
)
    requires
        score <= MAX_SCORE,
    ensures
        batch_scores(score, history, records, now, max_history, k).0 <= MAX_SCORE,
    decreases k,
{
    if k > 0 {
        lemma_batch_scores_bounded(score, history, records, now, max_history, (k - 1) as nat);
    }
}

/// Past its first faulty record, a batch has none.
pub proof fn lemma_no_record_fault(c: Config, records: Seq<BatchRecord>, i: int, k: int)
    requires
        0 <= i <= k < records.len(),
        record_fault_from(c, records, i) == records.len(),
    ensures
        record_error(c, records, k) is None,
    decreases k - i,
{
    if i < k {
        lemma_no_record_fault(c, records, i + 1, k);
    }
}

/// The first faulty record of a batch is faulty.
pub proof fn lemma_record_fault_is_fault(c: Config, records: Seq<BatchRecord>, i: int)
    requires
        0 <= i,
    ensures
        record_fault_from(c, records, i) <= records.len(),
        record_fault_from(c, records, i) < records.len() ==> record_error(
            c,
            records,
            record_fault_from(c, records, i),
        ) is Some,
    decreases records.len() - i,
{
    if i < records.len() && record_error(c, records, i) is None {
        lemma_record_fault_is_fault(c, records, i + 1);
    }
}

impl Lifecycle {
    /// The invariant of a contract state.
    pub open spec fn wf(&self) -> bool {
        lifecycle_invariant(self@)
    }

    /// A freshly deployed contract, not yet initialised.
    pub fn new() -> (r: Self)
        ensures
            r.wf(),
            r@.config is None,
            r@.asset_registry is None,
            r@.engineer_registry is None,
            !r@.paused,
            r@.pending_admin is None,
            r@.histories == Map::<u64, Seq<MaintenanceRecord>>::empty(),
            r@.scores == Map::<u64, u32>::empty(),
            r@.score_histories == Map::<u64, Seq<ScoreEntry>>::empty(),
            r@.last_updates == Map::<u64, u64>::empty(),
            r@.engineer_histories == Map::<Seq<char>, Seq<u64>>::empty(),
            r@.events == Seq::<LifecycleEvent>::empty(),
    {
        let r = Lifecycle {
            config: None,
            asset_registry: None,
            engineer_registry: None,
            paused: false,
            pending_admin: None,
            histories: Table::new(),
            scores: Table::new(),
            score_histories: Table::new(),
            last_updates: Table::new(),
            engineer_histories: Table::new(),
            events: Vec::new(),
        };
        assert(r@.histories =~= Map::<u64, Seq<MaintenanceRecord>>::empty());
        assert(r@.score_histories =~= Map::<u64, Seq<ScoreEntry>>::empty());
        assert(r@.engineer_histories =~= Map::<Seq<char>, Seq<u64>>::empty());
        r
    }

    /// Everything the contract has published, oldest first.
    pub fn events(&self) -> (r: &Vec<LifecycleEvent>)
        ensures
            r@ == self@.events,
    {
        &self.events
    }

    /// Binds the two registries and the admin, and sets the default settings, with
    /// `max_history` records per asset (zero for the default).
    pub fn initialize(
        &mut self,
        asset_registry: Address,
        engineer_registry: Address,
        admin: Address,
        max_history: u32,
    ) -> (r: Result<(), ContractError>)
        requires
            old(self).wf(),
        ensures
            final(self).wf(),
            match r {
                Ok(_) => old(self)@.config is None && asset_registry@ != engineer_registry@
                    && final(self)@ == (LifecycleView {
                    config: Some(initial_config(admin, max_history)),
                    asset_registry: Some(asset_registry@),
                    engineer_registry: Some(engineer_registry@),
                    events: old(self)@.events.push(
                        LifecycleEvent::Initialized {
                            asset_registry: asset_registry,
                            engineer_registry: engineer_registry,
                            admin: admin,
                        },
                    ),
                    ..old(self)@
                }),
                Err(e) => final(self)@ == old(self)@ && if old(self)@.config is Some {
                    e == ContractError::AlreadyInitialized
                } else {
                    asset_registry@ == engineer_registry@ && e == ContractError::InvalidConfig
                },
            },
    {
        if self.config.is_some() {
            return Err(ContractError::AlreadyInitialized);
        }
        if asset_registry == engineer_registry {
            return Err(ContractError::InvalidConfig);
        }
        self.asset_registry = Some(asset_registry.clone());
        self.engineer_registry = Some(engineer_registry.clone());
        let max = if max_history == 0 {
            DEFAULT_MAX_HISTORY
        } else {
            max_history
        };
        self.config = Some(
            Config {
                admin: admin.clone(),
                max_history: max,
                score_increment: DEFAULT_SCORE_INCREMENT,
                decay_rate: DEFAULT_DECAY_RATE,
                decay_interval: DEFAULT_DECAY_INTERVAL,
                eligibility_threshold: DEFAULT_ELIGIBILITY_THRESHOLD,
                max_notes_length: DEFAULT_MAX_NOTES_LENGTH,
            },
        );
        self.events.push(
            LifecycleEvent::Initialized { asset_registry, engineer_registry, admin },
        );
        Ok(())
    }

    /// Whether the contract is paused.
    pub fn is_paused(&self) -> (r: bool)
        ensures
            r == self@.paused,
    {
        self.paused
    }

    /// The settings.
    pub fn get_config(&self) -> (r: Result<Config, ContractError>)
        ensures
            match r {
                Ok(c) => self@.config == Some(c),
                Err(e) => self@.config is None && e == ContractError::NotInitialized,
            },
    {
        match &self.config {
            Some(c) => Ok(c.duplicate()),
            None => Err(ContractError::NotInitialized),
        }
    }

    /// The address of the asset registry.
    pub fn get_asset_registry(&self) -> (r: Result<Address, ContractError>)
        ensures
            match r {
                Ok(a) => self@.asset_registry == Some(a@),
                Err(e) => self@.asset_registry is None && e == ContractError::NotInitialized,
            },
    {
        match &self.asset_registry {
            Some(a) => Ok(a.clone()),
            None => Err(ContractError::NotInitialized),
        }
    }

    /// The address of the engineer registry.
    pub fn get_engineer_registry(&self) -> (r: Result<Address, ContractError>)
        ensures
            match r {
                Ok(a) => self@.engineer_registry == Some(a@),
                Err(e) => self@.engineer_registry is None && e == ContractError::NotInitialized,
            },
    {
        match &self.engineer_registry {
            Some(a) => Ok(a.clone()),
            None => Err(ContractError::NotInitialized),
        }
    }

    /// The settings, where `admin` is the admin.
    fn admin_config(&self, admin: &Address) -> (r: Result<Config, ContractError>)
        ensures
            match r {
                Ok(c) => admin_error(self@, admin@) is None && self@.config == Some(c),
                Err(e) => admin_error(self@, admin@) == Some(e),
            },
    {
        match &self.config {
            None => Err(ContractError::NotInitialized),
            Some(c) => {
                if c.admin == *admin {
                    Ok(c.duplicate())
                } else {
                    Err(ContractError::UnauthorizedAdmin)
                }
            },
        }
    }

    /// Pauses the contract.
    pub fn pause(&mut self, admin: &Address) -> (r: Result<(), ContractError>)
        requires
            old(self).wf(),
        ensures
            final(self).wf(),
            match r {
                Ok(_) => admin_error(old(self)@, admin@) is None && final(self)@
                    == (LifecycleView { paused: true, ..old(self)@ }),
                Err(e) => admin_error(old(self)@, admin@) == Some(e) && final(self)@ == old(self)@,
            },
    {
        self.admin_config(admin)?;
        self.paused = true;
        Ok(())
    }

    /// Lifts a pause.
    pub fn unpause(&mut self, admin: &Address) -> (r: Result<(), ContractError>)
        requires
            old(self).wf(),
        ensures
            final(self).wf(),
            match r {
                Ok(_) => admin_error(old(self)@, admin@) is None && final(self)@
                    == (LifecycleView { paused: false, ..old(self)@ }),
                Err(e) => admin_error(old(self)@, admin@) == Some(e) && final(self)@ == old(self)@,
            },
    {
        self.admin_config(admin)?;
        self.paused = false;
        Ok(())
    }

    /// Proposes `new_admin` as the next admin (first step of the hand-over).
    pub fn propose_admin(&mut self, admin: &Address, new_admin: Address) -> (r: Result<
        (),
        ContractError,
    >)
        requires
            old(self).wf(),
        ensures
            final(self).wf(),
            match r {
                Ok(_) => admin_error(old(self)@, admin@) is None && old(self)@.pending_admin is None
                    && final(self)@ == (LifecycleView {
                    pending_admin: Some(new_admin@),
                    ..old(self)@
                }),
                Err(e) => final(self)@ == old(self)@ && match admin_error(old(self)@, admin@) {
                    Some(a) => e == a,
                    None => old(self)@.pending_admin is Some && e
                        == ContractError::PendingAdminAlreadyExists,
                },
            },
    {
        self.admin_config(admin)?;
        if self.pending_admin.is_some() {
            return Err(ContractError::PendingAdminAlreadyExists);
        }
        self.pending_admin = Some(new_admin);
        Ok(())
    }

    /// The proposed admin takes over (second step of the hand-over); the proposed admin's
    /// authorisation is the host's.
    pub fn accept_admin(&mut self) -> (r: Result<(), ContractError>)
        requires
            old(self).wf(),
        ensures
            final(self).wf(),
            match r {
                Ok(_) => old(self)@.pending_admin is Some && old(self)@.config is Some && final(self)@.config is Some && final(self)@ == (LifecycleView {
                    config: final(self)@.config,
                    pending_admin: None,
                    ..old(self)@
                }) && final(self)@.config->0 == (Config {
                    admin: final(self)@.config->0.admin,
                    ..old(self)@.config->0
                }) && Some(final(self)@.config->0.admin@) == old(self)@.pending_admin,
                Err(e) => final(self)@ == old(self)@ && old(self)@.pending_admin is None && e
                    == ContractError::NotInitialized,
            },
    {
        let pending = match &self.pending_admin {
            None => {
                return Err(ContractError::NotInitialized);
            },
            Some(p) => p.clone(),
        };
        let c = match &self.config {
            None => {
                return Err(ContractError::NotInitialized);
            },
            Some(c) => c.duplicate(),
        };
        self.config = Some(Config { admin: pending, ..c });
        self.pending_admin = None;
        Ok(())
    }

    /// Sets the score increment, which must be positive.
    pub fn update_score_increment(&mut self, admin: &Address, score_increment: u32) -> (r: Result<
        (),
        ContractError,
    >)
        requires
            old(self).wf(),
        ensures
            final(self).wf(),
            match r {
                Ok(_) => setting_error(old(self)@, admin@, score_increment > 0) is None && final(self)@ == (LifecycleView {
                    config: Some(Config { score_increment: score_increment, ..old(self)@.config->0 }),
                    ..old(self)@
                }),
                Err(e) => setting_error(old(self)@, admin@, score_increment > 0) == Some(e) && final(self)@ == old(self)@,
            },
    {
        if self.paused {
            return Err(ContractError::Paused);
        }
        if score_increment == 0 {
            return Err(ContractError::InvalidConfig);
        }
        let c = self.admin_config(admin)?;
        self.config = Some(Config { score_increment, ..c });
        Ok(())
    }

    /// Sets the decay rate and interval, both of which must be positive.
    pub fn update_decay_config(
        &mut self,
        admin: &Address,
        decay_rate: u32,
        decay_interval: u64,
    ) -> (r: Result<(), ContractError>)
        requires
            old(self).wf(),
        ensures
            final(self).wf(),
            match r {
                Ok(_) => setting_error(old(self)@, admin@, decay_rate > 0 && decay_interval > 0)
                    is None && final(self)@ == (LifecycleView {
                    config: Some(
                        Config {
                            decay_rate: decay_rate,
                            decay_interval: decay_interval,
                            ..old(self)@.config->0
                        },
                    ),
                    ..old(self)@
                }),
                Err(e) => setting_error(old(self)@, admin@, decay_rate > 0 && decay_interval > 0)
                    == Some(e) && final(self)@ == old(self)@,
            },
    {
        if self.paused {
            return Err(ContractError::Paused);
        }
        if decay_rate == 0 || decay_interval == 0 {
            return Err(ContractError::InvalidConfig);
        }
        let c = self.admin_config(admin)?;
        self.config = Some(Config { decay_rate, decay_interval, ..c });
        Ok(())
    }

    /// Sets the score at which an asset becomes eligible as collateral.
    pub fn update_eligibility_threshold(&mut self, admin: &Address, threshold: u32) -> (r: Result<
        (),
        ContractError,
    >)
        requires
            old(self).wf(),
        ensures
            final(self).wf(),
            match r {
                Ok(_) => unpaused_admin_error(old(self)@, admin@) is None && final(self)@
                    == (LifecycleView {
                    config: Some(Config { eligibility_threshold: threshold, ..old(self)@.config->0 }),
                    ..old(self)@
                }),
                Err(e) => unpaused_admin_error(old(self)@, admin@) == Some(e) && final(self)@
                    == old(self)@,
            },
    {
        if self.paused {
            return Err(ContractError::Paused);
        }
        let c = self.admin_config(admin)?;
        self.config = Some(Config { eligibility_threshold: threshold, ..c });
        Ok(())
    }

    /// Sets the cap on maintenance records per asset, which must be positive. Maintenance
    /// histories longer than the new cap are not cut (they take no more records until
    /// `prune_asset_history` cuts them); a score history is cut to the cap at its next
    /// snapshot.
    pub fn update_max_history(&mut self, admin: &Address, new_max: u32) -> (r: Result<
        (),
        ContractError,
    >)
        requires
            old(self).wf(),
        ensures
            final(self).wf(),
            match r {
                Ok(_) => setting_error(old(self)@, admin@, new_max > 0) is None && final(self)@
                    == (LifecycleView {
                    config: Some(Config { max_history: new_max, ..old(self)@.config->0 }),
                    events: old(self)@.events.push(
                        LifecycleEvent::MaxHistoryUpdated { admin: *admin, max_history: new_max },
                    ),
                    ..old(self)@
                }),
                Err(e) => setting_error(old(self)@, admin@, new_max > 0) == Some(e) && final(self)@
                    == old(self)@,
            },
    {
        if self.paused {
            return Err(ContractError::Paused);
        }
        if new_max == 0 {
            return Err(ContractError::InvalidConfig);
        }
        let c = self.admin_config(admin)?;
        self.config = Some(Config { max_history: new_max, ..c });
        self.events.push(
            LifecycleEvent::MaxHistoryUpdated { admin: admin.clone(), max_history: new_max },
        );
        Ok(())
    }

    /// Rebinds the asset registry.
    pub fn update_asset_registry(&mut self, admin: &Address, new_registry: Address) -> (r: Result<
        (),
        ContractError,
    >)
        requires
            old(self).wf(),
        ensures
            final(self).wf(),
            match r {
                Ok(_) => unpaused_admin_error(old(self)@, admin@) is None && final(self)@
                    == (LifecycleView {
                    asset_registry: Some(new_registry@),
                    events: old(self)@.events.push(
                        LifecycleEvent::AssetRegistryUpdated {
                            admin: *admin,
                            registry: new_registry,
                        },
                    ),
                    ..old(self)@
                }),
                Err(e) => unpaused_admin_error(old(self)@, admin@) == Some(e) && final(self)@
                    == old(self)@,
            },
    {
        if self.paused {
            return Err(ContractError::Paused);
        }
        self.admin_config(admin)?;
        self.asset_registry = Some(new_registry.clone());
        self.events.push(
            LifecycleEvent::AssetRegistryUpdated { admin: admin.clone(), registry: new_registry },
        );
        Ok(())
    }

    /// Rebinds the engineer registry.
    pub fn update_engineer_registry(&mut self, admin: &Address, new_registry: Address) -> (r:
        Result<(), ContractError>)
        requires
            old(self).wf(),
        ensures
            final(self).wf(),
            match r {
                Ok(_) => unpaused_admin_error(old(self)@, admin@) is None && final(self)@
                    == (LifecycleView {
                    engineer_registry: Some(new_registry@),
                    events: old(self)@.events.push(
                        LifecycleEvent::EngineerRegistryUpdated {
                            admin: *admin,
                            registry: new_registry,
                        },
                    ),
                    ..old(self)@
                }),
                Err(e) => unpaused_admin_error(old(self)@, admin@) == Some(e) && final(self)@
                    == old(self)@,
            },
    {
        if self.paused {
            return Err(ContractError::Paused);
        }
        self.admin_config(admin)?;
        self.engineer_registry = Some(new_registry.clone());
        self.events.push(
            LifecycleEvent::EngineerRegistryUpdated {
                admin: admin.clone(),
                registry: new_registry,
            },
        );
        Ok(())
    }

    /// Appends `asset_id` to the assets `engineer` has maintained, unless it is there.
    fn engineer_history_add(&mut self, engineer: &Address, asset_id: u64)
        ensures
            final(self)@ == (LifecycleView {
                engineer_histories: old(self)@.engineer_histories.insert(
                    engineer@,
                    with_asset(engineer_history_of(old(self)@, engineer@), asset_id),
                ),
                ..old(self)@
            }),
    {
        let mut ids = match self.engineer_histories.remove(engineer) {
            Some(ids) => ids,
            None => Vec::new(),
        };
        let mut found = false;
        let mut i: usize = 0;
        while i < ids.len()
            invariant
                i <= ids@.len(),
                found == (exists|j: int| 0 <= j < i && ids@[j] == asset_id),
            decreases ids@.len() - i,
        {
            if ids[i] == asset_id {
                found = true;
            }
            i = i + 1;
        }
        if !found {
            ids.push(asset_id);
        }
        self.engineer_histories.insert(engineer.clone(), ids);
        assert(self@.engineer_histories =~= old(self)@.engineer_histories.insert(
            engineer@,
            with_asset(engineer_history_of(old(self)@, engineer@), asset_id),
        ));
    }

    /// Takes the maintenance records of an asset out of storage.
    fn take_history(&mut self, asset_id: u64) -> (h: Vec<MaintenanceRecord>)
        ensures
            h@ == history_of(old(self)@, asset_id),
            final(self)@ == (LifecycleView {
                histories: old(self)@.histories.remove(asset_id),
                ..old(self)@
            }),
    {
        let h = match self.histories.remove(&asset_id) {
            Some(h) => h,
            None => Vec::new(),
        };
        assert(self@.histories =~= old(self)@.histories.remove(asset_id));
        h
    }

    /// Takes the score snapshots of an asset out of storage.
    fn take_score_history(&mut self, asset_id: u64) -> (h: Vec<ScoreEntry>)
        ensures
            h@ == score_history_of(old(self)@, asset_id),
            final(self)@ == (LifecycleView {
                score_histories: old(self)@.score_histories.remove(asset_id),
                ..old(self)@
            }),
    {
        let h = match self.score_histories.remove(&asset_id) {
            Some(h) => h,
            None => Vec::new(),
        };
        assert(self@.score_histories =~= old(self)@.score_histories.remove(asset_id));
        h
    }

    /// Stores the maintenance records of an asset.
    fn put_history(&mut self, asset_id: u64, h: Vec<MaintenanceRecord>)
        ensures
            final(self)@ == (LifecycleView {
                histories: old(self)@.histories.insert(asset_id, h@),
                ..old(self)@
            }),
    {
        self.histories.insert(asset_id, h);
        assert(self@.histories =~= old(self)@.histories.insert(asset_id, h@));
    }

    /// Stores the score snapshots of an asset.
    fn put_score_history(&mut self, asset_id: u64, h: Vec<ScoreEntry>)
        ensures
            final(self)@ == (LifecycleView {
                score_histories: old(self)@.score_histories.insert(asset_id, h@),
                ..old(self)@
            }),
    {
        self.score_histories.insert(asset_id, h);
        assert(self@.score_histories =~= old(self)@.score_histories.insert(asset_id, h@));
    }

    /// The stored score of an asset.
    fn current_score(&self, asset_id: u64) -> (s: u32)
        ensures
            s == score_of(self@, asset_id),
    {
        match self.scores.get(&asset_id) {
            Some(s) => *s,
            None => 0,
        }
    }

    /// The number of maintenance records of an asset.
    fn history_len(&self, asset_id: u64) -> (n: usize)
        ensures
            n == history_of(self@, asset_id).len(),
    {
        match self.histories.get(&asset_id) {
            Some(h) => h.len(),
            None => 0,
        }
    }

    /// The checks of a submission that come before the registries are asked: the pause,
    /// the initialisation, the notes' length and the task type. A refusal here is the
    /// submission's answer whatever the registries would say.
    pub fn submission_precheck(&self, task_type: &Symbol, notes: &String) -> (r: Result<
        (),
        ContractError,
    >)
        ensures
            match r {
                Ok(_) => !self@.paused && self@.config is Some && byte_len(notes@)
                    <= self@.config->0.max_notes_length && task_weight(task_type@) is Some,
                Err(e) => forall|asset_id: u64, found: bool, verified_engineer: bool|
                    #[trigger] submit_error(
                        self@,
                        asset_id,
                        task_type@,
                        notes@,
                        found,
                        verified_engineer,
                    ) == Some(e),
            },
    {
        if self.paused {
            return Err(ContractError::Paused);
        }
        let max_notes = match &self.config {
            None => {
                return Err(ContractError::NotInitialized);
            },
            Some(c) => c.max_notes_length,
        };
        if notes_length(notes) > max_notes as usize {
            return Err(ContractError::InvalidConfig);
        }
        if get_task_weight(task_type).is_none() {
            return Err(ContractError::InvalidTaskType);
        }
        Ok(())
    }

    /// The checks of a batch submission that come before the registries are asked: the
    /// pause, the initialisation and every record. A refusal here is the batch's answer
    /// whatever the registries would say.
    pub fn batch_precheck(&self, records: &Vec<BatchRecord>) -> (r: Result<(), ContractError>)
        ensures
            match r {
                Ok(_) => !self@.paused && self@.config is Some && record_fault_from(
                    self@.config->0,
                    records@,
                    0,
                ) >= records@.len(),
                Err(e) => forall|asset_id: u64, found: bool, verified_engineer: bool|
                    #[trigger] batch_submit_error(
                        self@,
                        asset_id,
                        records@,
                        found,
                        verified_engineer,
                    ) == Some(e),
            },
    {
        if self.paused {
            return Err(ContractError::Paused);
        }
        let c = match &self.config {
            None => {
                return Err(ContractError::NotInitialized);
            },
            Some(c) => c.duplicate(),
        };
        let n = records.len();
        let mut i: usize = 0;
        while i < n
            invariant
                !self@.paused,
                self@.config == Some(c),
                n == records@.len(),
                i <= n,
                record_fault_from(c, records@, 0) == record_fault_from(c, records@, i as int),
            decreases n - i,
        {
            if notes_length(&records[i].notes) > c.max_notes_length as usize {
                assert(record_error(c, records@, i as int) == Some(ContractError::InvalidConfig));
                assert(record_fault_from(c, records@, i as int) == i);
                return Err(ContractError::InvalidConfig);
            }
            if get_task_weight(&records[i].task_type).is_none() {
                assert(record_error(c, records@, i as int) == Some(ContractError::InvalidTaskType));
                assert(record_fault_from(c, records@, i as int) == i);
                return Err(ContractError::InvalidTaskType);
            }
            assert(record_error(c, records@, i as int) is None);
            i = i + 1;
        }
        Ok(())
    }

    /// Records a task of `task_type` with `notes`, performed by `engineer` on asset
    /// `asset_id` at ledger time `now`. `asset_found` is whether the asset registry knows
    /// the asset, and `engineer_verified` whether the engineer registry verifies the
    /// engineer at `now`.
    pub fn submit_maintenance(
        &mut self,
        asset_id: u64,
        task_type: Symbol,
        notes: String,
        engineer: Address,
        now: u64,
        asset_found: bool,
        engineer_verified: bool,
    ) -> (r: Result<(), ContractError>)
        requires
            old(self).wf(),
        ensures
            final(self).wf(),
            match r {
                Ok(_) => submit_error(
                    old(self)@,
                    asset_id,
                    task_type@,
                    notes@,
                    asset_found,
                    engineer_verified,
                ) is None && final(self)@ == submit_effect(
                    old(self)@,
                    asset_id,
                    task_type,
                    notes,
                    engineer,
                    now,
                ),
                Err(e) => submit_error(
                    old(self)@,
                    asset_id,
                    task_type@,
                    notes@,
                    asset_found,
                    engineer_verified,
                ) == Some(e) && final(self)@ == old(self)@,
            },
    {
        if self.paused {
            return Err(ContractError::Paused);
        }
        let c = match &self.config {
            None => {
                return Err(ContractError::NotInitialized);
            },
            Some(c) => c.duplicate(),
        };
        if notes_length(&notes) > c.max_notes_length as usize {
            return Err(ContractError::InvalidConfig);
        }
        let weight = match get_task_weight(&task_type) {
            None => {
                return Err(ContractError::InvalidTaskType);
            },
            Some(w) => w,
        };
        if !asset_found {
            return Err(ContractError::AssetNotFound);
        }
        if !engineer_verified {
            return Err(ContractError::UnauthorizedEngineer);
        }
        if self.history_len(asset_id) >= c.max_history as usize {
            return Err(ContractError::HistoryCapReached);
        }
        let ghost v = old(self)@;
        proof {
            lemma_decay_effect(v, asset_id, false, false, now);
        }
        let score = self.decayed_now(asset_id, now);
        let new_score = if score + weight < MAX_SCORE {
            score + weight
        } else {
            MAX_SCORE
        };
        let event = LifecycleEvent::MaintenanceSubmitted {
            asset_id,
            task_type: task_type.clone(),
            engineer: engineer.clone(),
            timestamp: now,
        };
        let mut history = self.take_history(asset_id);
        history.push(
            MaintenanceRecord {
                asset_id,
                task_type,
                notes,
                engineer: engineer.clone(),
                timestamp: now,
            },
        );
        self.put_history(asset_id, history);
        self.engineer_history_add(&engineer, asset_id);
        self.scores.insert(asset_id, new_score);
        let snapshots = push_snapshot(
            self.take_score_history(asset_id),
            ScoreEntry { timestamp: now, score: new_score },
            c.max_history,
        );
        self.put_score_history(asset_id, snapshots);
        self.last_updates.insert(asset_id, now);
        self.events.push(event);
        proof {
            let w = self@;
            assert(w.histories =~= submit_effect(v, asset_id, task_type, notes, engineer, now).histories);
            assert(w.score_histories =~= submit_effect(v, asset_id, task_type, notes, engineer, now).score_histories);
            assert(w.histories =~= v.histories.remove(asset_id).insert(asset_id, w.histories[asset_id]));
            if engineer_history_of(v, engineer@).len() > 0 {
                assert(v.engineer_histories.contains_key(engineer@));
            }
            lemma_with_asset(engineer_history_of(v, engineer@), asset_id);
        }
        Ok(())
    }

    /// Records a batch of tasks performed by `engineer` on asset `asset_id` at ledger
    /// time `now`, all or none: every record is checked before any is stored.
    pub fn batch_submit_maintenance(
        &mut self,
        asset_id: u64,
        records: Vec<BatchRecord>,
        engineer: Address,
        now: u64,
        asset_found: bool,
        engineer_verified: bool,
    ) -> (r: Result<(), ContractError>)
        requires
            old(self).wf(),
            ({
                let v = old(self)@;
                !v.paused && v.config is Some && record_fault_from(v.config->0, records@, 0)
                    >= records@.len() && asset_found && engineer_verified ==> history_of(
                    v,
                    asset_id,
                ).len() + records@.len() <= u32::MAX
            }),
        ensures
            final(self).wf(),
            match r {
                Ok(_) => batch_submit_error(
                    old(self)@,
                    asset_id,
                    records@,
                    asset_found,
                    engineer_verified,
                ) is None && final(self)@ == batch_submit_effect(
                    old(self)@,
                    asset_id,
                    records@,
                    engineer,
                    now,
                ),
                Err(e) => batch_submit_error(
                    old(self)@,
                    asset_id,
                    records@,
                    asset_found,
                    engineer_verified,
                ) == Some(e) && final(self)@ == old(self)@,
            },
    {
        if self.paused {
            return Err(ContractError::Paused);
        }
        let c = match &self.config {
            None => {
                return Err(ContractError::NotInitialized);
            },
            Some(c) => c.duplicate(),
        };
        let ghost v = old(self)@;
        let n = records.len();
        // check every record first
        let mut weights: Vec<u32> = Vec::new();
        let mut i: usize = 0;
        while i < n
            invariant
                self@ == v,
                lifecycle_invariant(v),
                !v.paused,
                v.config == Some(c),
                n == records@.len(),
                i <= n,
                weights@.len() == i,
                forall|j: int| 0 <= j < i ==> Some(#[trigger] weights@[j]) == task_weight(
                    records@[j].task_type@,
                ),
                record_fault_from(c, records@, 0) == record_fault_from(c, records@, i as int),
            decreases n - i,
        {
            if notes_length(&records[i].notes) > c.max_notes_length as usize {
                assert(record_error(c, records@, i as int) == Some(ContractError::InvalidConfig));
                assert(record_fault_from(c, records@, i as int) == i);
                return Err(ContractError::InvalidConfig);
            }
            let weight = match get_task_weight(&records[i].task_type) {
                None => {
                    assert(record_error(c, records@, i as int) == Some(ContractError::InvalidTaskType));
                    assert(record_fault_from(c, records@, i as int) == i);
                    return Err(ContractError::InvalidTaskType);
                },
                Some(w) => w,
            };
            assert(record_error(c, records@, i as int) is None);
            weights.push(weight);
            i = i + 1;
        }
        proof {
            lemma_record_fault_is_fault(c, records@, 0);
        }
        if !asset_found {
            return Err(ContractError::AssetNotFound);
        }
        if !engineer_verified {
            return Err(ContractError::UnauthorizedEngineer);
        }
        let stored = self.history_len(asset_id);
        if stored as u64 + n as u64 > c.max_history as u64 {
            return Err(ContractError::HistoryCapReached);
        }
        if n == 0 {
            return Ok(());
        }
        // store them
        proof {
            lemma_decay_effect(v, asset_id, false, false, now);
        }
        let score0 = self.decayed_now(asset_id, now);
        let mut history = self.take_history(asset_id);
        let mut snapshots = self.take_score_history(asset_id);
        let ghost h0 = history@;
        let ghost s0 = snapshots@;
        let mut score = score0;
        let mut k: usize = 0;
        assert(history@ =~= h0 + batch_records(asset_id, records@, engineer, now).take(0));
        let ghost mid = self@;
        while k < n
            invariant
                k <= n,
                n == records@.len(),
                weights@.len() == n,
                forall|j: int| 0 <= j < n ==> Some(#[trigger] weights@[j]) == task_weight(
                    records@[j].task_type@,
                ),
                score0 <= MAX_SCORE,
                score <= MAX_SCORE,
                (score, snapshots@) == batch_scores(score0, s0, records@, now, c.max_history, k as nat),
                history@ == h0 + batch_records(asset_id, records@, engineer, now).take(k as int),
            decreases n - k,
        {
            let weight = weights[k];
            score = if score + weight < MAX_SCORE {
                score + weight
            } else {
                MAX_SCORE
            };
            history.push(
                MaintenanceRecord {
                    asset_id,
                    task_type: records[k].task_type.clone(),
                    notes: records[k].notes.clone(),
                    engineer: engineer.clone(),
                    timestamp: now,
                },
            );
            snapshots = push_snapshot(snapshots, ScoreEntry { timestamp: now, score }, c.max_history);
            proof {
                let prev = batch_scores(score0, s0, records@, now, c.max_history, k as nat);
                assert(snapshots@ =~= pushed_entry(prev.1, ScoreEntry { timestamp: now, score }, c.max_history));
                assert(history@ =~= h0 + batch_records(asset_id, records@, engineer, now).take(k + 1));
            }
            k = k + 1;
        }
        proof {
            assert(batch_records(asset_id, records@, engineer, now).take(n as int) =~= batch_records(asset_id, records@, engineer, now));
        }
        assert(history@ == history_of(v, asset_id) + batch_records(asset_id, records@, engineer, now));
        self.put_history(asset_id, history);
        assert(self@.histories =~= v.histories.insert(
            asset_id,
            history_of(v, asset_id) + batch_records(
                asset_id,
                records@,
                engineer,
                now,
            ),
        ));
        let ghost stored_histories = self@.histories;
        self.put_score_history(asset_id, snapshots);
        self.engineer_history_add(&engineer, asset_id);
        self.scores.insert(asset_id, score);
        self.last_updates.insert(asset_id, now);
        let ghost before_events = self@;
        let mut j: usize = 0;
        while j < n
            invariant
                j <= n,
                self@ == (LifecycleView { events: self@.events, ..before_events }),
                self@.events == v.events + validation_events(j as nat),
            decreases n - j,
        {
            self.events.push(LifecycleEvent::RecordValidated { index: #[verifier::truncate] (j as u32) });
            j = j + 1;
            assert(self@.events =~= v.events + validation_events(j as nat));
        }
        proof {
            let w = self@;
            let e = batch_submit_effect(v, asset_id, records@, engineer, now);
            assert(w.histories == stored_histories);
            assert(w.histories =~= e.histories);
            assert(w.score_histories =~= e.score_histories);
            lemma_with_asset(engineer_history_of(v, engineer@), asset_id);
            lemma_batch_scores_bounded(score0, s0, records@, now, c.max_history, n as nat);
        }
        Ok(())
    }

    /// The number of whole decay intervals since the decay anchor of asset `asset_id`, at
    /// ledger time `now`, and the anchor.
    fn decay_intervals_now(&self, asset_id: u64, now: u64) -> (r: (u64, u64))
        requires
            self.wf(),
            self@.config is Some,
        ensures
            r.0 == decay_intervals(self@, asset_id, now),
            r.1 == last_update_of(self@, asset_id),
            r.1 + r.0 * self@.config->0.decay_interval <= if now >= r.1 {
                now
            } else {
                r.1
            },
    {
        let last = match self.last_updates.get(&asset_id) {
            Some(t) => *t,
            None => 0,
        };
        let interval = match &self.config {
            Some(c) => c.decay_interval,
            None => 1,
        };
        let elapsed: u64 = if now >= last {
            now - last
        } else {
            0
        };
        let n = elapsed / interval;
        assert(n * interval <= elapsed) by (nonlinear_arith)
            requires
                interval > 0,
                n == elapsed / interval,
        ;
        (n, last)
    }

    /// The score of asset `asset_id` decayed to ledger time `now`, not stored.
    fn decayed_now(&self, asset_id: u64, now: u64) -> (s: u32)
        requires
            self.wf(),
            self@.config is Some,
        ensures
            s == decayed_score(self@, asset_id, now),
    {
        let current = self.current_score(asset_id);
        let (intervals, _) = self.decay_intervals_now(asset_id, now);
        let rate = match &self.config {
            Some(c) => c.decay_rate,
            None => 0,
        };
        assert((intervals as u128) * (rate as u128) <= 0xffff_ffff_ffff_ffffu128 * 0xffff_ffffu128)
            by (nonlinear_arith)
            requires
                intervals <= 0xffff_ffff_ffff_ffffu64,
                rate <= 0xffff_ffffu32,
        ;
        let total: u128 = (intervals as u128) * (rate as u128);
        if (current as u128) >= total {
            current - (total as u32)
        } else {
            0
        }
    }

    /// Applies the time-based decay to the score of asset `asset_id` at ledger time `now`
    /// and hands back the score.
    fn apply_decay(&mut self, asset_id: u64, emit: bool, update_on_zero: bool, now: u64) -> (s: u32)
        requires
            old(self).wf(),
            old(self)@.config is Some,
        ensures
            final(self).wf(),
            s == decay_result(old(self)@, asset_id, update_on_zero, now),
            final(self)@ == decay_effect(old(self)@, asset_id, emit, update_on_zero, now),
    {
        let ghost v = old(self)@;
        proof {
            lemma_decay_effect(v, asset_id, emit, update_on_zero, now);
        }
        let current = self.current_score(asset_id);
        if current == 0 {
            return 0;
        }
        let (intervals, last) = self.decay_intervals_now(asset_id, now);
        if intervals == 0 && !update_on_zero {
            return current;
        }
        let new_score = self.decayed_now(asset_id, now);
        let (decay_interval, max_history) = match &self.config {
            Some(c) => (c.decay_interval, c.max_history),
            None => {
                return current;
            },
        };
        let anchor = last + intervals * decay_interval;
        self.scores.insert(asset_id, new_score);
        self.last_updates.insert(asset_id, anchor);
        let snapshots = push_snapshot(
            self.take_score_history(asset_id),
            ScoreEntry { timestamp: now, score: new_score },
            max_history,
        );
        self.put_score_history(asset_id, snapshots);
        if emit {
            self.events.push(
                LifecycleEvent::ScoreDecayed {
                    asset_id,
                    old_score: current,
                    new_score,
                    timestamp: now,
                },
            );
        }
        proof {
            let w = self@;
            assert(w.score_histories =~= decay_effect(v, asset_id, emit, update_on_zero, now).score_histories);
        }
        new_score
    }

    /// Applies the time-based decay to the score of asset `asset_id` at ledger time `now`,
    /// announces it, and hands back the score; anyone may call it.
    pub fn decay_score(&mut self, asset_id: u64, now: u64) -> (r: Result<u32, ContractError>)
        requires
            old(self).wf(),
        ensures
            final(self).wf(),
            match r {
                Ok(s) => !old(self)@.paused && old(self)@.config is Some && s == decay_result(
                    old(self)@,
                    asset_id,
                    true,
                    now,
                ) && final(self)@ == decay_effect(old(self)@, asset_id, true, true, now),
                Err(e) => final(self)@ == old(self)@ && if old(self)@.paused {
                    e == ContractError::Paused
                } else {
                    old(self)@.config is None && e == ContractError::NotInitialized
                },
            },
    {
        if self.paused {
            return Err(ContractError::Paused);
        }
        if self.config.is_none() {
            return Err(ContractError::NotInitialized);
        }
        Ok(self.apply_decay(asset_id, true, true, now))
    }

    /// The collateral score of asset `asset_id` at ledger time `now`, with the decay
    /// applied and stored. `asset_found` is whether the asset registry knows the asset.
    pub fn get_collateral_score(&mut self, asset_id: u64, asset_found: bool, now: u64) -> (r:
        Result<u32, ContractError>)
        requires
            old(self).wf(),
        ensures
            final(self).wf(),
            match r {
                Ok(s) => score_read_error(old(self)@, asset_found) is None && s == decay_result(
                    old(self)@,
                    asset_id,
                    false,
                    now,
                ) && final(self)@ == decay_effect(old(self)@, asset_id, false, false, now),
                Err(e) => score_read_error(old(self)@, asset_found) == Some(e) && final(self)@
                    == old(self)@,
            },
    {
        if self.asset_registry.is_none() {
            return Err(ContractError::NotInitialized);
        }
        if !asset_found {
            return Err(ContractError::AssetNotFound);
        }
        if self.config.is_none() {
            return Err(ContractError::NotInitialized);
        }
        Ok(self.apply_decay(asset_id, false, false, now))
    }

    /// Whether asset `asset_id` is eligible as collateral at ledger time `now`: its
    /// decayed score (which is stored) reaches the threshold.
    pub fn is_collateral_eligible(&mut self, asset_id: u64, asset_found: bool, now: u64) -> (r:
        Result<bool, QueryError>)
        requires
            old(self).wf(),
        ensures
            final(self).wf(),
            match r {
                Ok(b) => eligibility_error(old(self)@, asset_found) is None && b == eligible(
                    old(self)@,
                    decay_result(old(self)@, asset_id, false, now),
                ) && final(self)@ == decay_effect(old(self)@, asset_id, false, false, now),
                Err(e) => eligibility_error(old(self)@, asset_found) == Some(e) && final(self)@
                    == old(self)@,
            },
    {
        if self.asset_registry.is_none() {
            return Err(QueryError::Lifecycle(ContractError::NotInitialized));
        }
        if !asset_found {
            return Err(QueryError::Registry(asset_registry::ContractError::AssetNotFound));
        }
        let threshold = match &self.config {
            None => {
                return Err(QueryError::Lifecycle(ContractError::NotInitialized));
            },
            Some(c) => c.eligibility_threshold,
        };
        let score = self.apply_decay(asset_id, false, false, now);
        Ok(score >= threshold)
    }

    /// Checks the eligibility of each asset of `asset_ids` in turn, at ledger time `now`;
    /// `assets_found[i]` is whether the asset registry knows `asset_ids[i]`. All or none.
    pub fn batch_is_collateral_eligible(
        &mut self,
        asset_ids: &Vec<u64>,
        assets_found: &Vec<bool>,
        now: u64,
    ) -> (r: Result<Vec<bool>, QueryError>)
        requires
            old(self).wf(),
            asset_ids@.len() == assets_found@.len(),
        ensures
            final(self).wf(),
            match r {
                Ok(answers) => batch_eligibility_error(old(self)@, assets_found@) is None && (
                answers@, final(self)@) == eligibility_fold(
                    old(self)@,
                    asset_ids@,
                    now,
                    asset_ids@.len(),
                ),
                Err(e) => batch_eligibility_error(old(self)@, assets_found@) == Some(e) && final(self)@ == old(self)@,
            },
    {
        let n = asset_ids.len();
        let ghost v = old(self)@;
        if n == 0 {
            return Ok(Vec::new());
        }
        if self.asset_registry.is_none() {
            return Err(QueryError::Lifecycle(ContractError::NotInitialized));
        }
        let mut i: usize = 0;
        while i < n
            invariant
                i <= n,
                0 < n,
                n == assets_found@.len(),
                self@ == v,
                lifecycle_invariant(v),
                v.asset_registry is Some,
                forall|j: int| 0 <= j < i ==> #[trigger] assets_found@[j],
            decreases n - i,
        {
            if !assets_found[i] {
                return Err(QueryError::Registry(asset_registry::ContractError::AssetNotFound));
            }
            i = i + 1;
        }
        let threshold = match &self.config {
            None => {
                return Err(QueryError::Lifecycle(ContractError::NotInitialized));
            },
            Some(c) => c.eligibility_threshold,
        };
        let mut answers: Vec<bool> = Vec::new();
        let mut k: usize = 0;
        while k < n
            invariant
                k <= n,
                n == asset_ids@.len(),
                v.config is Some,
                threshold == v.config->0.eligibility_threshold,
                self.wf(),
                (answers@, self@) == eligibility_fold(v, asset_ids@, now, k as nat),
                self@.config == v.config,
            decreases n - k,
        {
            let score = self.apply_decay(asset_ids[k], false, false, now);
            answers.push(score >= threshold);
            k = k + 1;
        }
        Ok(answers)
    }

    /// Sets the score of asset `asset_id` to zero, at ledger time `now`.
    pub fn reset_score(&mut self, admin: &Address, asset_id: u64, now: u64) -> (r: Result<
        (),
        ContractError,
    >)
        requires
            old(self).wf(),
        ensures
            final(self).wf(),
            match r {
                Ok(_) => unpaused_admin_error(old(self)@, admin@) is None && final(self)@
                    == (LifecycleView {
                    scores: old(self)@.scores.insert(asset_id, 0),
                    events: old(self)@.events.push(
                        LifecycleEvent::ScoreReset { asset_id: asset_id, admin: *admin, timestamp: now },
                    ),
                    ..old(self)@
                }),
                Err(e) => unpaused_admin_error(old(self)@, admin@) == Some(e) && final(self)@
                    == old(self)@,
            },
    {
        if self.paused {
            return Err(ContractError::Paused);
        }
        self.admin_config(admin)?;
        self.scores.insert(asset_id, 0);
        self.events.push(
            LifecycleEvent::ScoreReset { asset_id, admin: admin.clone(), timestamp: now },
        );
        Ok(())
    }

    /// Cuts the maintenance records and the score snapshots of asset `asset_id` to the
    /// latest `max_history` of each.
    pub fn prune_asset_history(&mut self, admin: &Address, asset_id: u64) -> (r: Result<
        (),
        ContractError,
    >)
        requires
            old(self).wf(),
        ensures
            final(self).wf(),
            match r {
                Ok(_) => unpaused_admin_error(old(self)@, admin@) is None && final(self)@
                    == prune_effect(old(self)@, *admin, asset_id),
                Err(e) => unpaused_admin_error(old(self)@, admin@) == Some(e) && final(self)@
                    == old(self)@,
            },
    {
        if self.paused {
            return Err(ContractError::Paused);
        }
        let c = self.admin_config(admin)?;
        let ghost v = old(self)@;
        let max = c.max_history as usize;
        let history_len = self.history_len(asset_id);
        if self.histories.contains_key(&asset_id) && history_len > max {
            let history = self.take_history(asset_id);
            let kept = tail(&history, max as u64);
            self.put_history(asset_id, kept);
        }
        let snapshot_len = match self.score_histories.get(&asset_id) {
            Some(h) => h.len(),
            None => 0,
        };
        if self.score_histories.contains_key(&asset_id) && snapshot_len > max {
            let snapshots = self.take_score_history(asset_id);
            let kept = tail(&snapshots, max as u64);
            self.put_score_history(asset_id, kept);
        }
        self.events.push(LifecycleEvent::HistoryPruned { admin: admin.clone(), asset_id });
        proof {
            let w = self@;
            let e = prune_effect(v, *admin, asset_id);
            assert(w.histories =~= e.histories);
            assert(w.score_histories =~= e.score_histories);
        }
        Ok(())
    }

    /// The maintenance records of asset `asset_id`, oldest first. `asset_found` is
    /// whether the asset registry knows the asset.
    pub fn get_maintenance_history(&self, asset_id: u64, asset_found: bool) -> (r: Result<
        Vec<MaintenanceRecord>,
        QueryError,
    >)
        ensures
            match r {
                Ok(h) => self@.asset_registry is Some && asset_found && h@ == history_of(
                    self@,
                    asset_id,
                ),
                Err(e) => if self@.asset_registry is None {
                    e == QueryError::Lifecycle(ContractError::NotInitialized)
                } else {
                    !asset_found && e == QueryError::Registry(
                        asset_registry::ContractError::AssetNotFound,
                    )
                },
            },
    {
        if self.asset_registry.is_none() {
            return Err(QueryError::Lifecycle(ContractError::NotInitialized));
        }
        if !asset_found {
            return Err(QueryError::Registry(asset_registry::ContractError::AssetNotFound));
        }
        match self.histories.get(&asset_id) {
            Some(h) => Ok(copy_all(h)),
            None => Ok(Vec::new()),
        }
    }

    /// A page of the maintenance records of asset `asset_id`.
    pub fn get_maintenance_history_page(&self, asset_id: u64, offset: u32, limit: u32) -> (r: Vec<
        MaintenanceRecord,
    >)
        requires
            page_fits(history_of(self@, asset_id).len() as int, offset, limit),
        ensures
            r@ == page_spec(history_of(self@, asset_id), offset as int, limit as int),
    {
        match self.histories.get(&asset_id) {
            Some(h) => page(h, offset, limit),
            None => {
                let empty: Vec<MaintenanceRecord> = Vec::new();
                page(&empty, offset, limit)
            },
        }
    }

    /// The most recent maintenance record of asset `asset_id`: the one with the latest
    /// timestamp, the earliest such where several share it.
    pub fn get_last_service(&self, asset_id: u64) -> (r: Result<MaintenanceRecord, ContractError>)
        ensures
            match r {
                Ok(record) => history_of(self@, asset_id).len() > 0 && record == history_of(
                    self@,
                    asset_id,
                )[latest_among(history_of(self@, asset_id), history_of(self@, asset_id).len() as int)],
                Err(e) => history_of(self@, asset_id).len() == 0 && e
                    == ContractError::NoMaintenanceHistory,
            },
    {
        let h = match self.histories.get(&asset_id) {
            Some(h) => h,
            None => {
                return Err(ContractError::NoMaintenanceHistory);
            },
        };
        if h.len() == 0 {
            return Err(ContractError::NoMaintenanceHistory);
        }
        let mut best: usize = 0;
        let mut i: usize = 1;
        while i < h.len()
            invariant
                1 <= i <= h@.len(),
                best == latest_among(h@, i as int),
                best < i,
            decreases h@.len() - i,
        {
            if h[i].timestamp > h[best].timestamp {
                best = i;
            }
            i = i + 1;
        }
        Ok(h[best].duplicate())
    }

    /// The score snapshots of asset `asset_id`, oldest first.
    pub fn get_score_history(&self, asset_id: u64) -> (r: Vec<ScoreEntry>)
        ensures
            r@ == score_history_of(self@, asset_id),
    {
        match self.score_histories.get(&asset_id) {
            Some(h) => copy_all(h),
            None => Vec::new(),
        }
    }

    /// The latest `n` score snapshots of asset `asset_id`, oldest first.
    pub fn get_score_trend(&self, asset_id: u64, n: u32) -> (r: Vec<ScoreEntry>)
        ensures
            r@ == (if n == 0 {
                Seq::empty()
            } else {
                tail_spec(score_history_of(self@, asset_id), n as int)
            }),
    {
        if n == 0 {
            return Vec::new();
        }
        match self.score_histories.get(&asset_id) {
            Some(h) => tail(h, n as u64),
            None => Vec::new(),
        }
    }

    /// The ledger time of the most recent maintenance of asset `asset_id`: the timestamp
    /// of its latest record, if it has any.
    pub fn get_last_service_timestamp(&self, asset_id: u64) -> (r: Option<u64>)
        ensures
            r == last_service_time(self@, asset_id),
    {
        match self.get_last_service(asset_id) {
            Ok(record) => Some(record.timestamp),
            Err(_) => None,
        }
    }

    /// The assets `engineer` has maintained, each once, in the order first maintained.
    pub fn get_engineer_maintenance_history(&self, engineer: &Address) -> (r: Vec<u64>)
        ensures
            r@ == engineer_history_of(self@, engineer@),
    {
        match self.engineer_histories.get(engineer) {
            Some(h) => copy_all(h),
            None => Vec::new(),
        }
    }

    /// A page of the assets `engineer` has maintained.
    pub fn get_eng_history_page(&self, engineer: &Address, offset: u32, limit: u32) -> (r: Vec<u64>)
        requires
            page_fits(engineer_history_of(self@, engineer@).len() as int, offset, limit),
        ensures
            r@ == page_spec(engineer_history_of(self@, engineer@), offset as int, limit as int),
    {
        match self.engineer_histories.get(engineer) {
            Some(h) => page(h, offset, limit),
            None => {
                let empty: Vec<u64> = Vec::new();
                page(&empty, offset, limit)
            },
        }
    }

    /// Records an upgrade of the contract code to `new_wasm_hash`; the deployment of the
    /// new code is the host's.
    pub fn upgrade(&mut self, admin: &Address, new_wasm_hash: [u8; 32]) -> (r: Result<
        (),
        ContractError,
    >)
        requires
            old(self).wf(),
        ensures
            final(self).wf(),
            match r {
                Ok(_) => unpaused_admin_error(old(self)@, admin@) is None && final(self)@
                    == (LifecycleView {
                    events: old(self)@.events.push(
                        LifecycleEvent::Upgraded { admin: *admin, wasm_hash: new_wasm_hash },
                    ),
                    ..old(self)@
                }),
                Err(e) => unpaused_admin_error(old(self)@, admin@) == Some(e) && final(self)@
                    == old(self)@,
            },
    {
        if self.paused {
            return Err(ContractError::Paused);
        }
        self.admin_config(admin)?;
        self.events.push(LifecycleEvent::Upgraded { admin: admin.clone(), wasm_hash: new_wasm_hash });
        Ok(())
    }
}

} // verus!
