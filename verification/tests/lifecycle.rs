use mainstay::asset_registry::{self, AssetRegistry};
use mainstay::engineer_registry::EngineerRegistry;
use mainstay::lifecycle::{
    BatchRecord, ContractError, Lifecycle, LifecycleEvent, QueryError, ScoreEntry,
    DEFAULT_DECAY_INTERVAL, DEFAULT_ELIGIBILITY_THRESHOLD, DEFAULT_MAX_HISTORY, MAX_SCORE,
};
use soroban_sdk::Env;

fn s(text: &str) -> String {
    text.to_string()
}

const YEAR: u64 = 31_536_000;

/// The three contracts side by side, with the ledger clock; the life-cycle contract
/// is handed the registries' answers as the deployed contract asks for them.
struct World {
    env: Env,
    lc: Lifecycle,
    assets: AssetRegistry,
    engineers: EngineerRegistry,
    now: u64,
    next_name: u32,
}

impl World {
    fn fresh_name(&mut self, prefix: &str) -> String {
        self.next_name += 1;
        format!("{}{}", prefix, self.next_name)
    }

    fn register_asset(&mut self) -> u64 {
        let owner = self.fresh_name("owner");
        self.assets
            .register_asset(&self.env, s("GENSET"), s("Caterpillar 3516"), owner, self.now)
            .unwrap()
    }

    /// Installs the engineer registry's admin (once) and a trusted issuer, and
    /// credentials a new engineer for `validity` seconds.
    fn register_engineer_for(&mut self, validity: u64) -> String {
        if self.engineers.get_admin().is_err() {
            self.engineers.initialize_admin(s("eng_admin")).unwrap();
        }
        self.engineers.add_trusted_issuer(&s("eng_admin"), s("issuer")).unwrap();
        let engineer = self.fresh_name("engineer");
        self.engineers
            .register_engineer(engineer.clone(), [1u8; 32], s("issuer"), validity, self.now)
            .unwrap();
        engineer
    }

    fn register_engineer(&mut self) -> String {
        self.register_engineer_for(YEAR)
    }

    fn submit(&mut self, asset_id: u64, task: &str, notes: &str, engineer: &str) -> Result<(), ContractError> {
        let found = self.assets.asset_exists(asset_id);
        let verified = self.engineers.verify_engineer(&s(engineer), self.now);
        self.lc.submit_maintenance(asset_id, s(task), s(notes), s(engineer), self.now, found, verified)
    }

    fn batch(&mut self, asset_id: u64, records: Vec<BatchRecord>, engineer: &str) -> Result<(), ContractError> {
        let found = self.assets.asset_exists(asset_id);
        let verified = self.engineers.verify_engineer(&s(engineer), self.now);
        self.lc.batch_submit_maintenance(asset_id, records, s(engineer), self.now, found, verified)
    }

    fn score(&mut self, asset_id: u64) -> Result<u32, ContractError> {
        let found = self.assets.asset_exists(asset_id);
        self.lc.get_collateral_score(asset_id, found, self.now)
    }

    fn eligible(&mut self, asset_id: u64) -> Result<bool, QueryError> {
        let found = self.assets.asset_exists(asset_id);
        self.lc.is_collateral_eligible(asset_id, found, self.now)
    }

    fn decay(&mut self, asset_id: u64) -> Result<u32, ContractError> {
        self.lc.decay_score(asset_id, self.now)
    }

    fn history_len(&self, asset_id: u64) -> usize {
        let found = self.assets.asset_exists(asset_id);
        self.lc.get_maintenance_history(asset_id, found).unwrap().len()
    }
}

/// The three contracts deployed, the life-cycle contract initialised with
/// `max_history` and the asset registry allowing `GENSET`.
fn setup(max_history: u32) -> World {
    let mut lc = Lifecycle::new();
    lc.initialize(s("asset_registry"), s("engineer_registry"), s("admin"), max_history).unwrap();
    let mut assets = AssetRegistry::new();
    assets.initialize_admin(s("asset_admin")).unwrap();
    assets.add_asset_type(&s("asset_admin"), s("GENSET")).unwrap();
    World { env: Env::default(), lc, assets, engineers: EngineerRegistry::new(), now: 0, next_name: 0 }
}

fn record(task: &str, notes: &str) -> BatchRecord {
    BatchRecord { task_type: s(task), notes: s(notes) }
}

#[test]
fn test_submit_and_score() {
    let mut w = setup(0);
    let asset_id = w.register_asset();
    let engineer = w.register_engineer();
    for _ in 0..10 {
        w.submit(asset_id, "OIL_CHG", "Routine oil change", &engineer).unwrap();
    }
    assert_eq!(w.score(asset_id), Ok(20));
    assert_eq!(w.history_len(asset_id), 10);
}

#[test]
fn test_get_maintenance_history_nonexistent_asset_returns_error() {
    let w = setup(0);
    assert_eq!(
        w.lc.get_maintenance_history(999, w.assets.asset_exists(999)),
        Err(QueryError::Registry(asset_registry::ContractError::AssetNotFound))
    );
}

#[test]
fn test_submit_maintenance_nonexistent_asset() {
    let mut w = setup(0);
    let engineer = w.register_engineer();
    assert_eq!(w.submit(999, "OIL_CHG", "Should fail", &engineer), Err(ContractError::AssetNotFound));
}

#[test]
fn test_history_cap_enforced() {
    let mut w = setup(3);
    let asset_id = w.register_asset();
    let engineer = w.register_engineer();
    for _ in 0..3 {
        w.submit(asset_id, "OIL_CHG", "ok", &engineer).unwrap();
    }
    assert_eq!(w.submit(asset_id, "OIL_CHG", "over cap", &engineer), Err(ContractError::HistoryCapReached));
}

#[test]
fn test_submit_maintenance_rejects_empty_task_type() {
    let mut w = setup(0);
    let asset_id = w.register_asset();
    let engineer = w.register_engineer();
    assert_eq!(w.submit(asset_id, "", "Empty task type", &engineer), Err(ContractError::InvalidTaskType));
}

#[test]
fn test_submit_maintenance_rejects_unknown_task_type() {
    let mut w = setup(0);
    let asset_id = w.register_asset();
    let engineer = w.register_engineer();
    assert_eq!(
        w.submit(asset_id, "UNKNOWN", "Unknown task type", &engineer),
        Err(ContractError::InvalidTaskType)
    );
}

#[test]
fn test_submit_maintenance_rejects_oversized_notes() {
    let mut w = setup(0);
    let asset_id = w.register_asset();
    let engineer = w.register_engineer();
    let oversized = "x".repeat(300);
    assert_eq!(w.submit(asset_id, "OIL_CHG", &oversized, &engineer), Err(ContractError::InvalidConfig));
}

#[test]
fn test_unregistered_engineer_rejected() {
    let mut w = setup(0);
    let asset_id = w.register_asset();
    assert_eq!(
        w.submit(asset_id, "OIL_CHG", "Should fail", "unregistered"),
        Err(ContractError::UnauthorizedEngineer)
    );
}

#[test]
fn test_maintenance_history_by_engineer() {
    let mut w = setup(0);
    let asset_id1 = w.register_asset();
    let asset_id2 = w.register_asset();
    let engineer = w.register_engineer();
    w.submit(asset_id1, "OIL_CHG", "one", &engineer).unwrap();
    w.submit(asset_id2, "OIL_CHG", "two", &engineer).unwrap();
    let history = w.lc.get_engineer_maintenance_history(&engineer);
    assert_eq!(history.len(), 2);
    assert!(history.contains(&asset_id1));
    assert!(history.contains(&asset_id2));
    assert_eq!(w.lc.get_engineer_maintenance_history(&s("other_engineer")).len(), 0);
}

#[test]
fn test_get_last_service_no_history() {
    let mut w = setup(0);
    let asset_id = w.register_asset();
    assert_eq!(w.lc.get_last_service(asset_id), Err(ContractError::NoMaintenanceHistory));
}

#[test]
fn test_get_last_service_returns_most_recent_by_timestamp() {
    let mut w = setup(0);
    let asset_id = w.register_asset();
    let engineer = w.register_engineer();
    w.now = 1000;
    w.submit(asset_id, "OIL_CHG", "first", &engineer).unwrap();
    w.now = 2000;
    w.submit(asset_id, "INSPECT", "second", &engineer).unwrap();
    let last = w.lc.get_last_service(asset_id).unwrap();
    assert_eq!(last.timestamp, 2000);
    assert_eq!(last.task_type, s("INSPECT"));
}

#[test]
fn test_admin_can_update_score_increment() {
    let mut w = setup(0);
    let asset_id = w.register_asset();
    let engineer = w.register_engineer();
    w.lc.update_score_increment(&s("admin"), 12).unwrap();
    w.submit(asset_id, "OIL_CHG", "Configured increment", &engineer).unwrap();
    assert_eq!(w.score(asset_id), Ok(2));
    assert_eq!(w.lc.get_config().unwrap().score_increment, 12);
}

#[test]
fn test_non_admin_cannot_update_score_increment() {
    let mut w = setup(0);
    assert_eq!(w.lc.update_score_increment(&s("outsider"), 12), Err(ContractError::UnauthorizedAdmin));
}

#[test]
fn test_update_score_increment_zero_rejected() {
    let mut w = setup(0);
    assert_eq!(w.lc.update_score_increment(&s("admin"), 0), Err(ContractError::InvalidConfig));
}

#[test]
fn test_admin_can_update_max_history() {
    let mut w = setup(0);
    w.lc.update_max_history(&s("admin"), 300).unwrap();
    assert_eq!(w.lc.get_config().unwrap().max_history, 300);
}

#[test]
fn test_non_admin_cannot_update_max_history() {
    let mut w = setup(0);
    assert_eq!(w.lc.update_max_history(&s("outsider"), 300), Err(ContractError::UnauthorizedAdmin));
}

#[test]
fn test_update_max_history_zero_rejected() {
    let mut w = setup(0);
    assert_eq!(w.lc.update_max_history(&s("admin"), 0), Err(ContractError::InvalidConfig));
}

#[test]
fn test_score_history_bounded_after_max_history_update() {
    let mut w = setup(10);
    let asset_id = w.register_asset();
    let engineer = w.register_engineer();
    for _ in 0..4 {
        w.submit(asset_id, "OIL_CHG", "Maintenance", &engineer).unwrap();
        w.now += 1000;
    }
    assert_eq!(w.lc.get_score_history(asset_id).len(), 4);
    w.lc.update_max_history(&s("admin"), 5).unwrap();
    w.submit(asset_id, "OIL_CHG", "Maintenance", &engineer).unwrap();
    w.now += 1000;
    w.decay(asset_id).unwrap();
    assert!(w.lc.get_score_history(asset_id).len() <= 5);
}

#[test]
fn test_max_history_reduction_does_not_automatically_prune() {
    let mut w = setup(10);
    let asset_id = w.register_asset();
    let engineer = w.register_engineer();
    for _ in 0..10 {
        w.submit(asset_id, "OIL_CHG", "Maintenance", &engineer).unwrap();
    }
    assert_eq!(w.history_len(asset_id), 10);
    assert_eq!(w.lc.get_score_history(asset_id).len(), 10);
    w.lc.update_max_history(&s("admin"), 3).unwrap();
    assert_eq!(w.history_len(asset_id), 10);
    assert_eq!(w.lc.get_score_history(asset_id).len(), 10);
}

#[test]
fn test_prune_asset_history_reduces_both_histories() {
    let mut w = setup(10);
    let asset_id = w.register_asset();
    let engineer = w.register_engineer();
    for _ in 0..10 {
        w.submit(asset_id, "OIL_CHG", "Maintenance", &engineer).unwrap();
        w.now += 1;
    }
    w.lc.update_max_history(&s("admin"), 3).unwrap();
    let history_before = w.lc.get_maintenance_history(asset_id, true).unwrap();
    assert_eq!(history_before.len(), 10);
    assert_eq!(w.lc.get_score_history(asset_id).len(), 10);
    w.lc.prune_asset_history(&s("admin"), asset_id).unwrap();
    let history_after = w.lc.get_maintenance_history(asset_id, true).unwrap();
    assert_eq!(history_after.len(), 3);
    assert_eq!(w.lc.get_score_history(asset_id).len(), 3);
    assert_eq!(history_before[9].timestamp, history_after[2].timestamp);
}

#[test]
fn test_non_admin_cannot_prune_asset_history() {
    let mut w = setup(10);
    let asset_id = w.register_asset();
    assert_eq!(w.lc.prune_asset_history(&s("outsider"), asset_id), Err(ContractError::UnauthorizedAdmin));
}

#[test]
fn test_admin_can_update_decay_config() {
    let mut w = setup(0);
    let asset_id = w.register_asset();
    let engineer = w.register_engineer();
    w.submit(asset_id, "ENGINE", "Major overhaul", &engineer).unwrap();
    let initial_score = w.score(asset_id).unwrap();
    w.lc.update_decay_config(&s("admin"), 10, 60).unwrap();
    w.now += 120;
    w.decay(asset_id).unwrap();
    assert_eq!(w.score(asset_id), Ok(initial_score.saturating_sub(20)));
}

#[test]
fn test_non_admin_cannot_update_decay_config() {
    let mut w = setup(0);
    assert_eq!(w.lc.update_decay_config(&s("outsider"), 10, 60), Err(ContractError::UnauthorizedAdmin));
}

#[test]
fn test_update_decay_config_zero_interval_rejected() {
    let mut w = setup(0);
    assert_eq!(w.lc.update_decay_config(&s("admin"), 10, 0), Err(ContractError::InvalidConfig));
}

#[test]
fn test_update_decay_config_zero_rate_rejected() {
    let mut w = setup(0);
    assert_eq!(w.lc.update_decay_config(&s("admin"), 0, 2592000), Err(ContractError::InvalidConfig));
}

#[test]
fn test_decay_score_uses_configured_values() {
    let mut w = setup(0);
    let asset_id = w.register_asset();
    let engineer = w.register_engineer();
    for _ in 0..5 {
        w.submit(asset_id, "ENGINE", "Major work", &engineer).unwrap();
    }
    let initial_score = w.score(asset_id).unwrap();
    w.lc.update_decay_config(&s("admin"), 2, 100).unwrap();
    w.now += 250;
    w.decay(asset_id).unwrap();
    assert_eq!(w.score(asset_id), Ok(initial_score.saturating_sub(4)));
}

#[test]
fn test_get_collateral_score_applies_lazy_decay() {
    let mut w = setup(0);
    let asset_id = w.register_asset();
    let engineer = w.register_engineer();
    for _ in 0..2 {
        w.submit(asset_id, "ENGINE", "Build score", &engineer).unwrap();
    }
    w.lc.update_decay_config(&s("admin"), 5, 60).unwrap();
    w.now += 120;
    assert_eq!(w.score(asset_id), Ok(10));
    assert_eq!(w.score(asset_id), Ok(10));
}

#[test]
fn test_decay_score_five_points_per_thirty_day_interval() {
    let mut w = setup(0);
    let asset_id = w.register_asset();
    let engineer = w.register_engineer();
    for _ in 0..5 {
        w.submit(asset_id, "ENGINE", "Build score to 50", &engineer).unwrap();
    }
    assert_eq!(w.score(asset_id), Ok(50));
    w.now += 2 * DEFAULT_DECAY_INTERVAL;
    assert_eq!(w.decay(asset_id), Ok(40));
    assert_eq!(w.score(asset_id), Ok(40));
}

#[test]
fn test_decay_score_clamps_at_zero_after_long_elapsed_time() {
    let mut w = setup(0);
    let asset_id = w.register_asset();
    let engineer = w.register_engineer();
    w.submit(asset_id, "ENGINE", "Single major service", &engineer).unwrap();
    assert_eq!(w.score(asset_id), Ok(10));
    w.now += 365 * 86_400;
    assert_eq!(w.decay(asset_id), Ok(0));
    assert_eq!(w.score(asset_id), Ok(0));
}

#[test]
fn test_decay_score_returns_zero_for_asset_with_no_maintenance() {
    let mut w = setup(0);
    let asset_id = w
        .assets
        .register_asset(&w.env, s("GENSET"), s("No-maintenance asset"), s("owner"), 0)
        .unwrap();
    w.now += 10_000_000;
    assert_eq!(w.decay(asset_id), Ok(0));
}

#[test]
fn test_decay_score_returns_zero_for_nonexistent_asset_id() {
    let mut w = setup(0);
    assert_eq!(w.decay(9999), Ok(0));
}

#[test]
fn test_submit_maintenance_emits_event() {
    let mut w = setup(0);
    let asset_id = w.register_asset();
    let engineer = w.register_engineer();
    w.submit(asset_id, "OIL_CHG", "Routine", &engineer).unwrap();
    assert!(w.lc.events().len() > 0);
    assert_eq!(
        w.lc.events().last().unwrap(),
        &LifecycleEvent::MaintenanceSubmitted {
            asset_id,
            task_type: s("OIL_CHG"),
            engineer: engineer.clone(),
            timestamp: 0
        }
    );
}

#[test]
fn test_initialize_emits_event() {
    let mut lc = Lifecycle::new();
    lc.initialize(s("asset_registry"), s("engineer_registry"), s("admin"), 0).unwrap();
    assert_eq!(lc.events().len(), 1);
    assert_eq!(
        lc.events()[0],
        LifecycleEvent::Initialized {
            asset_registry: s("asset_registry"),
            engineer_registry: s("engineer_registry"),
            admin: s("admin")
        }
    );
}

#[test]
fn test_initialize_twice_panics_with_already_initialized() {
    let mut lc = Lifecycle::new();
    lc.initialize(s("asset_registry"), s("engineer_registry"), s("admin"), 0).unwrap();
    assert_eq!(
        lc.initialize(s("asset_registry"), s("engineer_registry"), s("admin"), 0),
        Err(ContractError::AlreadyInitialized)
    );
}

#[test]
fn test_initialize_rejects_same_registry_addresses() {
    let mut lc = Lifecycle::new();
    assert_eq!(
        lc.initialize(s("same_registry"), s("same_registry"), s("admin"), 0),
        Err(ContractError::InvalidConfig)
    );
}

#[test]
fn test_get_collateral_score_unregistered_asset() {
    let mut w = setup(0);
    assert_eq!(w.score(999), Err(ContractError::AssetNotFound));
}

#[test]
fn test_is_collateral_eligible_unregistered_asset() {
    let mut w = setup(0);
    assert_eq!(w.eligible(999), Err(QueryError::Registry(asset_registry::ContractError::AssetNotFound)));
}

#[test]
fn test_is_collateral_eligible_below_default_threshold() {
    let mut w = setup(0);
    let asset_id = w.register_asset();
    let engineer = w.register_engineer();
    w.submit(asset_id, "OIL_CHG", "notes", &engineer).unwrap();
    assert_eq!(w.eligible(asset_id), Ok(false));
}

#[test]
fn test_is_collateral_eligible_after_threshold_lowered() {
    let mut w = setup(0);
    let asset_id = w.register_asset();
    let engineer = w.register_engineer();
    w.submit(asset_id, "OIL_CHG", "notes", &engineer).unwrap();
    let score = w.score(asset_id).unwrap();
    w.lc.update_eligibility_threshold(&s("admin"), score).unwrap();
    assert_eq!(w.eligible(asset_id), Ok(true));
}

#[test]
fn test_is_collateral_eligible_flips_false_after_decay() {
    let mut w = setup(0);
    let asset_id = w.register_asset();
    let engineer = w.register_engineer();
    for _ in 0..10 {
        w.submit(asset_id, "FILTER", "notes", &engineer).unwrap();
    }
    assert_eq!(w.eligible(asset_id), Ok(true));
    w.lc.update_decay_config(&s("admin"), 5, 60).unwrap();
    w.now += 120;
    assert_eq!(w.eligible(asset_id), Ok(false));
}

#[test]
fn test_full_cross_contract_threshold_boundary() {
    let mut w = setup(0);
    let asset_id = w.register_asset();
    let engineer = w.register_engineer();
    w.lc.update_eligibility_threshold(&s("admin"), 10).unwrap();
    w.submit(asset_id, "FILTER", "Filter replacement 1", &engineer).unwrap();
    assert_eq!(w.score(asset_id), Ok(5));
    assert_eq!(w.eligible(asset_id), Ok(false));
    w.submit(asset_id, "FILTER", "Filter replacement 2", &engineer).unwrap();
    assert_eq!(w.score(asset_id), Ok(10));
    assert_eq!(w.eligible(asset_id), Ok(true));
}

#[test]
fn test_update_eligibility_threshold_non_admin_rejected() {
    let mut w = setup(0);
    assert_eq!(w.lc.update_eligibility_threshold(&s("outsider"), 10), Err(ContractError::UnauthorizedAdmin));
}

#[test]
fn test_batch_is_collateral_eligible_mixed() {
    let mut w = setup(0);
    let engineer = w.register_engineer();
    let asset_a = w.register_asset();
    for _ in 0..5 {
        w.submit(asset_a, "ENGINE", "", &engineer).unwrap();
    }
    let asset_b = w.register_asset();
    w.submit(asset_b, "OIL_CHG", "", &engineer).unwrap();
    let ids = vec![asset_a, asset_b];
    let found: Vec<bool> = ids.iter().map(|id| w.assets.asset_exists(*id)).collect();
    let results = w.lc.batch_is_collateral_eligible(&ids, &found, w.now).unwrap();
    assert_eq!(results.len(), 2);
    assert!(results[0]);
    assert!(!results[1]);
}

#[test]
fn test_batch_is_collateral_eligible_empty_input() {
    let mut w = setup(0);
    let results = w.lc.batch_is_collateral_eligible(&Vec::new(), &Vec::new(), w.now).unwrap();
    assert_eq!(results.len(), 0);
}

#[test]
fn test_batch_is_collateral_eligible_unknown_asset_returns_error() {
    let mut w = setup(0);
    let ids = vec![999u64];
    let found = vec![w.assets.asset_exists(999)];
    assert_eq!(
        w.lc.batch_is_collateral_eligible(&ids, &found, w.now),
        Err(QueryError::Registry(asset_registry::ContractError::AssetNotFound))
    );
}

#[test]
fn lifecycle_test_admin_can_upgrade() {
    let mut w = setup(0);
    assert!(w.lc.upgrade(&s("admin"), [0xab; 32]) != Err(ContractError::UnauthorizedAdmin));
}

#[test]
fn lifecycle_test_non_admin_cannot_upgrade() {
    let mut w = setup(0);
    assert_eq!(w.lc.upgrade(&s("outsider"), [0xab; 32]), Err(ContractError::UnauthorizedAdmin));
}

#[test]
fn test_upgrade_emits_event() {
    let mut w = setup(0);
    let before = w.lc.events().len();
    w.lc.upgrade(&s("admin"), [0xab; 32]).unwrap();
    assert_eq!(w.lc.events().len(), before + 1);
    assert_eq!(
        w.lc.events()[before],
        LifecycleEvent::Upgraded { admin: s("admin"), wasm_hash: [0xab; 32] }
    );
}

#[test]
fn lifecycle_test_propose_and_accept_admin_transfer() {
    let mut w = setup(0);
    w.lc.propose_admin(&s("admin"), s("new_admin")).unwrap();
    w.lc.accept_admin().unwrap();
    assert_eq!(w.lc.get_config().unwrap().admin, s("new_admin"));
}

/// After the hand-over no proposal is pending: accepting again is refused as it is
/// when nothing was ever proposed, and a new proposal can be made.
#[test]
fn lifecycle_test_pending_admin_key_cleared_after_accept() {
    let mut w = setup(0);
    w.lc.propose_admin(&s("admin"), s("new_admin")).unwrap();
    w.lc.accept_admin().unwrap();
    assert_eq!(w.lc.accept_admin(), Err(ContractError::NotInitialized));
    w.lc.propose_admin(&s("new_admin"), s("third")).unwrap();
}

/// Only the proposed admin takes over: until the proposal is accepted the admin stays,
/// and accepting installs the proposed address (the caller's authorisation is the
/// host's).
#[test]
fn lifecycle_test_wrong_address_cannot_accept_admin() {
    let mut w = setup(0);
    w.lc.propose_admin(&s("admin"), s("new_admin")).unwrap();
    assert_eq!(w.lc.get_config().unwrap().admin, s("admin"));
    assert_eq!(w.lc.update_score_increment(&s("impostor"), 7), Err(ContractError::UnauthorizedAdmin));
    w.lc.accept_admin().unwrap();
    assert_eq!(w.lc.get_config().unwrap().admin, s("new_admin"));
}

#[test]
fn lifecycle_test_non_admin_cannot_propose_admin() {
    let mut w = setup(0);
    assert_eq!(w.lc.propose_admin(&s("outsider"), s("new_admin")), Err(ContractError::UnauthorizedAdmin));
}

#[test]
fn test_score_history_empty_before_any_maintenance() {
    let mut w = setup(0);
    let asset_id = w.register_asset();
    assert_eq!(w.lc.get_score_history(asset_id).len(), 0);
}

#[test]
fn test_score_history_records_entry_per_maintenance() {
    let mut w = setup(0);
    let asset_id = w.register_asset();
    let engineer = w.register_engineer();
    w.submit(asset_id, "OIL_CHG", "First", &engineer).unwrap();
    w.submit(asset_id, "ENGINE", "Second", &engineer).unwrap();
    w.submit(asset_id, "FILTER", "Third", &engineer).unwrap();
    assert_eq!(w.lc.get_score_history(asset_id).len(), 3);
}

#[test]
fn test_score_history_scores_are_cumulative() {
    let mut w = setup(0);
    let asset_id = w.register_asset();
    let engineer = w.register_engineer();
    w.submit(asset_id, "OIL_CHG", "a", &engineer).unwrap();
    w.submit(asset_id, "ENGINE", "b", &engineer).unwrap();
    w.submit(asset_id, "FILTER", "c", &engineer).unwrap();
    let history = w.lc.get_score_history(asset_id);
    assert_eq!(history[0].score, 2);
    assert_eq!(history[1].score, 12);
    assert_eq!(history[2].score, 17);
}

#[test]
fn test_score_history_timestamps_match_ledger() {
    let mut w = setup(0);
    let asset_id = w.register_asset();
    let engineer = w.register_engineer();
    let t0 = w.now;
    w.submit(asset_id, "OIL_CHG", "at t0", &engineer).unwrap();
    w.now += 1000;
    let t1 = w.now;
    w.submit(asset_id, "LUBE", "at t1", &engineer).unwrap();
    let history = w.lc.get_score_history(asset_id);
    assert_eq!(history[0].timestamp, t0);
    assert_eq!(history[1].timestamp, t1);
}

#[test]
fn test_score_history_capped_at_100() {
    let mut w = setup(0);
    let asset_id = w.register_asset();
    let engineer = w.register_engineer();
    for _ in 0..12 {
        w.submit(asset_id, "REBUILD", "major", &engineer).unwrap();
    }
    let history = w.lc.get_score_history(asset_id);
    for entry in history.iter() {
        assert!(entry.score <= 100);
    }
    assert_eq!(history[10].score, 100);
    assert_eq!(history[11].score, 100);
}

#[test]
fn test_score_history_pruned_at_max_history() {
    let mut w = setup(5);
    let asset_id = w.register_asset();
    let engineer = w.register_engineer();
    for _ in 0..5 {
        w.submit(asset_id, "OIL_CHG", "", &engineer).unwrap();
    }
    assert_eq!(w.lc.get_score_history(asset_id).len(), 5);
    for _ in 0..3 {
        w.now += DEFAULT_DECAY_INTERVAL;
        w.decay(asset_id).unwrap();
    }
    assert_eq!(w.lc.get_score_history(asset_id).len(), 5);
}

#[test]
fn test_score_trend_returns_last_n() {
    let mut w = setup(0);
    let asset_id = w.register_asset();
    let engineer = w.register_engineer();
    for _ in 0..5 {
        w.submit(asset_id, "OIL_CHG", "entry", &engineer).unwrap();
    }
    let full = w.lc.get_score_history(asset_id);
    let trend = w.lc.get_score_trend(asset_id, 3);
    assert_eq!(trend.len(), 3);
    assert_eq!(trend[0].score, full[2].score);
    assert_eq!(trend[1].score, full[3].score);
    assert_eq!(trend[2].score, full[4].score);
}

#[test]
fn test_score_trend_n_exceeds_history_length() {
    let mut w = setup(0);
    let asset_id = w.register_asset();
    let engineer = w.register_engineer();
    w.submit(asset_id, "OIL_CHG", "only one", &engineer).unwrap();
    assert_eq!(w.lc.get_score_trend(asset_id, 10).len(), 1);
}

#[test]
fn test_score_trend_n_zero_returns_empty() {
    let mut w = setup(0);
    let asset_id = w.register_asset();
    let engineer = w.register_engineer();
    w.submit(asset_id, "OIL_CHG", "entry", &engineer).unwrap();
    assert_eq!(w.lc.get_score_trend(asset_id, 0).len(), 0);
}

#[test]
fn test_score_trend_empty_history() {
    let mut w = setup(0);
    let asset_id = w.register_asset();
    assert_eq!(w.lc.get_score_trend(asset_id, 5).len(), 0);
}

#[test]
fn test_batch_submit_maintenance() {
    let mut w = setup(0);
    let asset_id = w.register_asset();
    let engineer = w.register_engineer();
    let records = vec![
        record("OIL_CHG", "Oil change"),
        record("INSPECT", "Inspection"),
        record("ENGINE", "Engine repair"),
    ];
    w.batch(asset_id, records, &engineer).unwrap();
    assert_eq!(w.score(asset_id), Ok(14));
    assert_eq!(w.history_len(asset_id), 3);
}

#[test]
fn test_batch_submit_no_duplicate_engineer_history() {
    let mut w = setup(0);
    let asset_id = w.register_asset();
    let engineer = w.register_engineer();
    let records = vec![
        record("OIL_CHG", "Oil change 1"),
        record("OIL_CHG", "Oil change 2"),
        record("INSPECT", "Inspection"),
    ];
    w.batch(asset_id, records, &engineer).unwrap();
    let history = w.lc.get_engineer_maintenance_history(&engineer);
    assert_eq!(history.iter().filter(|id| **id == asset_id).count(), 1);
}

#[test]
fn test_batch_submit_fails_atomically_on_history_cap() {
    let mut w = setup(3);
    let asset_id = w.register_asset();
    let engineer = w.register_engineer();
    for _ in 0..2 {
        w.submit(asset_id, "OIL_CHG", "", &engineer).unwrap();
    }
    assert_eq!(w.history_len(asset_id), 2);
    let records = vec![record("OIL_CHG", ""), record("OIL_CHG", "")];
    assert_eq!(w.batch(asset_id, records, &engineer), Err(ContractError::HistoryCapReached));
    assert_eq!(w.history_len(asset_id), 2);
}

#[test]
fn test_batch_submit_exceeds_history_cap() {
    let mut w = setup(2);
    let asset_id = w.register_asset();
    let engineer = w.register_engineer();
    let records = vec![record("OIL_CHG", "First"), record("OIL_CHG", "Second"), record("OIL_CHG", "Third - over cap")];
    assert_eq!(w.batch(asset_id, records, &engineer), Err(ContractError::HistoryCapReached));
}

#[test]
fn test_batch_submit_unauthorized_engineer() {
    let mut w = setup(0);
    let asset_id = w.register_asset();
    let records = vec![record("OIL_CHG", "Should fail")];
    assert_eq!(w.batch(asset_id, records, "unregistered"), Err(ContractError::UnauthorizedEngineer));
}

#[test]
fn test_batch_submit_reports_failing_record_index() {
    let mut w = setup(0);
    let asset_id = w.register_asset();
    let engineer = w.register_engineer();
    let before = w.lc.events().len();
    let records = vec![record("OIL_CHG", "Valid"), record("INSPECT", "Valid"), record("UNKNOWN", "Invalid task type")];
    assert_eq!(w.batch(asset_id, records, &engineer), Err(ContractError::InvalidTaskType));
    assert_eq!(w.lc.events().len(), before);
}

#[test]
fn test_batch_submit_maintenance_rejects_oversized_notes() {
    let mut w = setup(0);
    let asset_id = w.register_asset();
    let engineer = w.register_engineer();
    let records = vec![record("OIL_CHG", &"x".repeat(300))];
    assert_eq!(w.batch(asset_id, records, &engineer), Err(ContractError::InvalidConfig));
}

#[test]
fn test_submit_maintenance_unregistered_engineer_should_panic() {
    let mut w = setup(0);
    let asset_id = w.register_asset();
    assert_eq!(
        w.submit(asset_id, "OIL_CHG", "Should fail", "unregistered"),
        Err(ContractError::UnauthorizedEngineer)
    );
}

#[test]
fn test_collateral_score_caps_at_100() {
    let mut w = setup(0);
    let asset_id = w.register_asset();
    let engineer = w.register_engineer();
    for _ in 0..25 {
        w.submit(asset_id, "FILTER", "Filter replacement", &engineer).unwrap();
    }
    assert_eq!(w.score(asset_id), Ok(100));
}

#[test]
fn test_submit_maintenance_revoked_engineer_should_panic() {
    let mut w = setup(0);
    let asset_id = w.register_asset();
    let engineer = w.register_engineer();
    w.engineers.revoke_credential(&engineer, w.now).unwrap();
    assert_eq!(
        w.submit(asset_id, "OIL_CHG", "Post-revocation attempt", &engineer),
        Err(ContractError::UnauthorizedEngineer)
    );
}

#[test]
fn test_submit_maintenance_revoked_then_reregistered_engineer() {
    let mut w = setup(0);
    let asset_id = w.register_asset();
    w.engineers.initialize_admin(s("eng_admin")).unwrap();
    w.engineers.add_trusted_issuer(&s("eng_admin"), s("issuer")).unwrap();
    w.engineers.register_engineer(s("engineer"), [1u8; 32], s("issuer"), YEAR, w.now).unwrap();
    w.engineers.revoke_credential(&s("engineer"), w.now).unwrap();
    assert!(!w.engineers.verify_engineer(&s("engineer"), w.now));
    assert_eq!(
        w.submit(asset_id, "OIL_CHG", "Post-revocation attempt", "engineer"),
        Err(ContractError::UnauthorizedEngineer)
    );
    w.engineers.register_engineer(s("engineer"), [2u8; 32], s("issuer"), YEAR, w.now).unwrap();
    assert!(w.engineers.verify_engineer(&s("engineer"), w.now));
    w.submit(asset_id, "OIL_CHG", "Post-reregistration submission", "engineer").unwrap();
    let history = w.lc.get_maintenance_history(asset_id, true).unwrap();
    assert_eq!(history.len(), 1);
    assert_eq!(history[0].engineer, s("engineer"));
}

#[test]
fn test_submit_maintenance_expired_engineer_should_panic() {
    let mut w = setup(0);
    let asset_id = w.register_asset();
    let engineer = w.register_engineer_for(1000);
    assert!(w.engineers.verify_engineer(&engineer, w.now));
    w.now += 1001;
    assert!(!w.engineers.verify_engineer(&engineer, w.now));
    assert_eq!(
        w.submit(asset_id, "OIL_CHG", "Post-expiry attempt", &engineer),
        Err(ContractError::UnauthorizedEngineer)
    );
}

#[test]
fn test_submit_maintenance_rejects_expired_credential_via_cross_contract_call() {
    let mut w = setup(0);
    let asset_id = w
        .assets
        .register_asset(&w.env, s("GENSET"), s("Test Generator"), s("owner"), 0)
        .unwrap();
    let engineer = w.register_engineer_for(100);
    assert!(w.engineers.verify_engineer(&engineer, w.now));
    w.now += 101;
    assert!(!w.engineers.verify_engineer(&engineer, w.now));
    assert_eq!(
        w.submit(asset_id, "OIL_CHG", "Post-expiry attempt", &engineer),
        Err(ContractError::UnauthorizedEngineer)
    );
}

#[test]
fn test_batch_submit_maintenance_rejects_expired_credential_via_cross_contract_call() {
    let mut w = setup(0);
    let asset_id = w
        .assets
        .register_asset(&w.env, s("GENSET"), s("Test Generator"), s("owner"), 0)
        .unwrap();
    let engineer = w.register_engineer_for(100);
    assert!(w.engineers.verify_engineer(&engineer, w.now));
    w.now += 101;
    assert!(!w.engineers.verify_engineer(&engineer, w.now));
    let records = vec![record("OIL_CHG", "Post-expiry batch attempt")];
    assert_eq!(w.batch(asset_id, records, &engineer), Err(ContractError::UnauthorizedEngineer));
}

#[test]
fn test_full_lifecycle_integration() {
    let mut w = setup(0);
    let asset_admin = w.assets.get_admin().unwrap();
    w.assets.add_asset_type(&asset_admin, s("TURBINE")).unwrap();
    let asset_id = w
        .assets
        .register_asset(&w.env, s("TURBINE"), s("GE LM2500 Turbine Unit 7"), s("owner"), w.now)
        .unwrap();
    assert_eq!(w.assets.get_asset(asset_id).unwrap().owner, s("owner"));
    w.engineers.initialize_admin(s("eng_admin")).unwrap();
    w.engineers.add_trusted_issuer(&s("eng_admin"), s("issuer")).unwrap();
    w.engineers.register_engineer(s("engineer"), [2u8; 32], s("issuer"), YEAR, w.now).unwrap();
    assert!(w.engineers.verify_engineer(&s("engineer"), w.now));
    for _ in 0..10 {
        w.submit(asset_id, "ENGINE", "Full engine service", "engineer").unwrap();
        w.now += 1;
    }
    assert_eq!(w.eligible(asset_id), Ok(true));
    let last = w.lc.get_last_service(asset_id).unwrap();
    assert_eq!(last.asset_id, asset_id);
    assert_eq!(last.engineer, s("engineer"));
    assert_eq!(last.task_type, s("ENGINE"));
    assert_eq!(last.timestamp, 9);
}

#[test]
fn test_decay_score_emits_correct_event() {
    let mut w = setup(0);
    let asset_id = w.register_asset();
    let engineer = w.register_engineer();
    w.submit(asset_id, "ENGINE", "", &engineer).unwrap();
    let initial_score: u32 = 10;
    w.lc.update_decay_config(&s("admin"), 3, 60).unwrap();
    w.now += 60;
    let decay_time = w.now;
    let before = w.lc.events().len();
    w.decay(asset_id).unwrap();
    assert_eq!(w.lc.events().len(), before + 1);
    assert_eq!(
        w.lc.events()[before],
        LifecycleEvent::ScoreDecayed {
            asset_id,
            old_score: initial_score,
            new_score: initial_score - 3,
            timestamp: decay_time
        }
    );
}

#[test]
fn test_admin_can_reset_score() {
    let mut w = setup(0);
    let asset_id = w.register_asset();
    let engineer = w.register_engineer();
    w.submit(asset_id, "ENGINE", "Major overhaul", &engineer).unwrap();
    assert!(w.score(asset_id).unwrap() > 0);
    w.lc.reset_score(&s("admin"), asset_id, w.now).unwrap();
    assert_eq!(w.score(asset_id), Ok(0));
}

#[test]
fn test_task_weight_tiers() {
    let mut w = setup(0);
    let asset_id = w.register_asset();
    let engineer = w.register_engineer();
    w.submit(asset_id, "OIL_CHG", "", &engineer).unwrap();
    assert_eq!(w.score(asset_id), Ok(2));
    w.lc.reset_score(&s("admin"), asset_id, w.now).unwrap();
    w.submit(asset_id, "FILTER", "", &engineer).unwrap();
    assert_eq!(w.score(asset_id), Ok(5));
    w.lc.reset_score(&s("admin"), asset_id, w.now).unwrap();
    w.submit(asset_id, "ENGINE", "", &engineer).unwrap();
    assert_eq!(w.score(asset_id), Ok(10));
    w.lc.reset_score(&s("admin"), asset_id, w.now).unwrap();
    assert_eq!(w.submit(asset_id, "UNKNOWN", "", &engineer), Err(ContractError::InvalidTaskType));
}

#[test]
fn test_non_admin_cannot_reset_score() {
    let mut w = setup(0);
    let asset_id = w.register_asset();
    let engineer = w.register_engineer();
    w.submit(asset_id, "ENGINE", "Major overhaul", &engineer).unwrap();
    assert_eq!(w.lc.reset_score(&s("outsider"), asset_id, w.now), Err(ContractError::UnauthorizedAdmin));
}

#[test]
fn test_get_last_service_timestamp_none_before_maintenance() {
    let mut w = setup(0);
    let asset_id = w.register_asset();
    assert_eq!(w.lc.get_last_service_timestamp(asset_id), None);
}

#[test]
fn test_get_last_service_timestamp_returns_ledger_time() {
    let mut w = setup(0);
    let asset_id = w.register_asset();
    let engineer = w.register_engineer();
    let t0 = w.now;
    w.submit(asset_id, "OIL_CHG", "first service", &engineer).unwrap();
    assert_eq!(w.lc.get_last_service_timestamp(asset_id), Some(t0));
    w.now += 500;
    let t1 = w.now;
    w.submit(asset_id, "FILTER", "second service", &engineer).unwrap();
    assert_eq!(w.lc.get_last_service_timestamp(asset_id), Some(t1));
}

#[test]
fn test_get_collateral_score_before_init_returns_structured_error() {
    let mut lc = Lifecycle::new();
    assert_eq!(lc.get_collateral_score(1, false, 0), Err(ContractError::NotInitialized));
}

#[test]
fn test_get_asset_registry_before_init_returns_structured_error() {
    let lc = Lifecycle::new();
    assert_eq!(lc.get_asset_registry(), Err(ContractError::NotInitialized));
}

#[test]
fn test_get_engineer_registry_before_init_returns_structured_error() {
    let lc = Lifecycle::new();
    assert_eq!(lc.get_engineer_registry(), Err(ContractError::NotInitialized));
}

#[test]
fn test_get_config_before_init_returns_structured_error() {
    let lc = Lifecycle::new();
    assert_eq!(lc.get_config(), Err(ContractError::NotInitialized));
}

#[test]
fn test_update_asset_registry_before_init_returns_structured_error() {
    let mut lc = Lifecycle::new();
    assert_eq!(lc.update_asset_registry(&s("admin"), s("new_registry")), Err(ContractError::NotInitialized));
}

#[test]
fn test_update_engineer_registry_before_init_returns_structured_error() {
    let mut lc = Lifecycle::new();
    assert_eq!(lc.update_engineer_registry(&s("admin"), s("new_registry")), Err(ContractError::NotInitialized));
}

#[test]
fn test_update_asset_registry_emits_reg_ast_topic() {
    let mut w = setup(0);
    let before = w.lc.events().len();
    w.lc.update_asset_registry(&s("admin"), s("new_registry")).unwrap();
    assert_eq!(w.lc.events().len(), before + 1);
    assert_eq!(
        w.lc.events()[before],
        LifecycleEvent::AssetRegistryUpdated { admin: s("admin"), registry: s("new_registry") }
    );
    assert_eq!(w.lc.get_asset_registry(), Ok(s("new_registry")));
}

#[test]
fn test_update_engineer_registry_emits_reg_eng_topic() {
    let mut w = setup(0);
    let before = w.lc.events().len();
    w.lc.update_engineer_registry(&s("admin"), s("new_registry")).unwrap();
    assert_eq!(w.lc.events().len(), before + 1);
    assert_eq!(
        w.lc.events()[before],
        LifecycleEvent::EngineerRegistryUpdated { admin: s("admin"), registry: s("new_registry") }
    );
    assert_eq!(w.lc.get_engineer_registry(), Ok(s("new_registry")));
}

#[test]
fn test_batch_submit_score_history_length_matches_records() {
    let mut w = setup(0);
    let asset_id = w.register_asset();
    let engineer = w.register_engineer();
    let records = vec![record("OIL_CHG", "First"), record("INSPECT", "Second"), record("ENGINE", "Third")];
    w.batch(asset_id, records, &engineer).unwrap();
    let history = w.lc.get_score_history(asset_id);
    assert_eq!(history.len(), 3);
    assert_eq!(
        history,
        vec![
            ScoreEntry { timestamp: 0, score: 2 },
            ScoreEntry { timestamp: 0, score: 4 },
            ScoreEntry { timestamp: 0, score: 14 }
        ]
    );
}

/// The entries whose lifetime the original extends exist after a batch: the records,
/// the score, the snapshots and the last update.
#[test]
fn test_batch_submit_extends_ttl() {
    let mut w = setup(0);
    let asset_id = w.register_asset();
    let engineer = w.register_engineer();
    w.batch(asset_id, vec![record("OIL_CHG", "ttl test")], &engineer).unwrap();
    assert_eq!(w.history_len(asset_id), 1);
    assert_eq!(w.score(asset_id), Ok(2));
    assert_eq!(w.lc.get_score_history(asset_id).len(), 1);
    assert_eq!(w.lc.get_last_service_timestamp(asset_id), Some(0));
}

#[test]
fn test_get_maintenance_history_page() {
    let mut w = setup(0);
    let asset_id = w.register_asset();
    let engineer = w.register_engineer();
    for _ in 0..5 {
        w.submit(asset_id, "OIL_CHG", "oil change", &engineer).unwrap();
    }
    assert_eq!(w.lc.get_maintenance_history_page(asset_id, 0, 2).len(), 2);
    assert_eq!(w.lc.get_maintenance_history_page(asset_id, 2, 2).len(), 2);
    assert_eq!(w.lc.get_maintenance_history_page(asset_id, 4, 2).len(), 1);
    assert_eq!(w.lc.get_maintenance_history_page(asset_id, 10, 2).len(), 0);
    assert_eq!(w.lc.get_maintenance_history_page(asset_id, 0, 0).len(), 0);
}

#[test]
fn test_get_engineer_maintenance_history_page() {
    let mut w = setup(0);
    let engineer = w.register_engineer();
    for _ in 0..5 {
        let asset_id = w.register_asset();
        w.submit(asset_id, "OIL_CHG", "oil change", &engineer).unwrap();
    }
    assert_eq!(w.lc.get_eng_history_page(&engineer, 0, 2).len(), 2);
    assert_eq!(w.lc.get_eng_history_page(&engineer, 2, 2).len(), 2);
    assert_eq!(w.lc.get_eng_history_page(&engineer, 4, 2).len(), 1);
    assert_eq!(w.lc.get_eng_history_page(&engineer, 10, 2).len(), 0);
    assert_eq!(w.lc.get_eng_history_page(&engineer, 0, 0).len(), 0);
}

/// The score, last update and snapshots are still there after a decay.
#[test]
fn test_decay_score_extends_ttl() {
    let mut w = setup(0);
    let asset_id = w.register_asset();
    let engineer = w.register_engineer();
    w.submit(asset_id, "ENGINE", "Maintenance", &engineer).unwrap();
    w.decay(asset_id).unwrap();
    assert_eq!(w.score(asset_id), Ok(10));
    assert_eq!(w.lc.get_last_service_timestamp(asset_id), Some(0));
    assert_eq!(w.lc.get_score_history(asset_id).len(), 2);
}

/// The records, the score, the snapshots and the last update exist after a submission.
#[test]
fn test_submit_maintenance_extends_ttl() {
    let mut w = setup(0);
    let asset_id = w.register_asset();
    let engineer = w.register_engineer();
    w.submit(asset_id, "ENGINE", "Maintenance", &engineer).unwrap();
    assert_eq!(w.history_len(asset_id), 1);
    assert_eq!(w.score(asset_id), Ok(10));
    assert_eq!(w.lc.get_score_history(asset_id).len(), 1);
    assert_eq!(w.lc.get_last_service_timestamp(asset_id), Some(0));
}

/// The records, the score, the snapshots and the last update exist after a batch.
#[test]
fn test_batch_submit_maintenance_extends_ttl() {
    let mut w = setup(0);
    let asset_id = w.register_asset();
    let engineer = w.register_engineer();
    w.batch(asset_id, vec![record("OIL_CHG", "Oil change"), record("INSPECT", "Inspection")], &engineer)
        .unwrap();
    assert_eq!(w.history_len(asset_id), 2);
    assert_eq!(w.score(asset_id), Ok(4));
    assert_eq!(w.lc.get_score_history(asset_id).len(), 2);
    assert_eq!(w.lc.get_last_service_timestamp(asset_id), Some(0));
}

#[test]
fn test_reset_score_extends_ttl() {
    let mut w = setup(0);
    let asset_id = w.register_asset();
    let engineer = w.register_engineer();
    w.submit(asset_id, "ENGINE", "Maintenance", &engineer).unwrap();
    w.lc.reset_score(&s("admin"), asset_id, w.now).unwrap();
    assert_eq!(w.score(asset_id), Ok(0));
}

#[test]
fn test_pause_affects_all_state_changes_in_lifecycle() {
    let mut w = setup(0);
    let asset_id = w.register_asset();
    let engineer = w.register_engineer();
    w.lc.pause(&s("admin")).unwrap();
    assert_eq!(w.score(asset_id), Ok(0));
    assert!(w.score(asset_id).is_ok());
    assert_eq!(w.submit(asset_id, "OIL_CHG", "", &engineer), Err(ContractError::Paused));
    assert_eq!(w.batch(asset_id, vec![record("OIL_CHG", "")], &engineer), Err(ContractError::Paused));
    assert_eq!(w.decay(asset_id), Err(ContractError::Paused));
    assert_eq!(w.lc.upgrade(&s("admin"), [0u8; 32]), Err(ContractError::Paused));
}

#[test]
fn test_engineer_maintenance_history_multiple_assets_and_sessions() {
    let mut w = setup(0);
    let asset1 = w.register_asset();
    let asset2 = w.register_asset();
    let engineer = w.register_engineer();
    w.submit(asset1, "OIL_CHG", "Session 1", &engineer).unwrap();
    w.now += 3600;
    w.submit(asset2, "INSPECT", "Session 2", &engineer).unwrap();
    let history = w.lc.get_engineer_maintenance_history(&engineer);
    assert_eq!(history.len(), 2);
    assert!(history.contains(&asset1));
    assert!(history.contains(&asset2));
}

#[test]
fn test_is_collateral_eligible_threshold_boundary() {
    let mut w = setup(0);
    let asset_id = w.register_asset();
    let engineer = w.register_engineer();
    for _ in 0..9 {
        w.submit(asset_id, "FILTER", "Filter replacement", &engineer).unwrap();
    }
    assert_eq!(w.score(asset_id), Ok(45));
    assert_eq!(w.eligible(asset_id), Ok(false));
    w.submit(asset_id, "FILTER", "Filter replacement", &engineer).unwrap();
    assert_eq!(w.score(asset_id), Ok(50));
    assert_eq!(w.eligible(asset_id), Ok(true));
}

#[test]
fn test_full_cross_contract_integration_with_transfer() {
    let mut w = setup(0);
    let asset_id = w
        .assets
        .register_asset(&w.env, s("GENSET"), s("CAT 3516 Generator"), s("owner"), w.now)
        .unwrap();
    assert_eq!(w.assets.get_asset(asset_id).unwrap().owner, s("owner"));
    w.engineers.initialize_admin(s("eng_admin")).unwrap();
    w.engineers.add_trusted_issuer(&s("eng_admin"), s("issuer")).unwrap();
    w.engineers.register_engineer(s("engineer"), [3u8; 32], s("issuer"), YEAR, w.now).unwrap();
    assert!(w.engineers.verify_engineer(&s("engineer"), w.now));
    for _ in 0..5 {
        w.submit(asset_id, "OVERHAUL", "Full overhaul", "engineer").unwrap();
    }
    assert_eq!(w.score(asset_id), Ok(50));
    assert_eq!(w.eligible(asset_id), Ok(true));
    assert_eq!(w.history_len(asset_id), 5);
    w.assets.transfer_asset(&w.env, asset_id, s("owner"), s("new_owner"), w.now).unwrap();
    assert_eq!(w.assets.get_asset(asset_id).unwrap().owner, s("new_owner"));
    assert_eq!(w.score(asset_id), Ok(50));
    assert_eq!(w.eligible(asset_id), Ok(true));
    assert_eq!(w.lc.get_last_service(asset_id).unwrap().engineer, s("engineer"));
}

// ---- further cases: the figures of the scoring documentation and the edges ----

#[test]
fn documented_decay_sixty_days_takes_ten_points() {
    let mut w = setup(0);
    let asset_id = w.register_asset();
    let engineer = w.register_engineer();
    for _ in 0..6 {
        w.submit(asset_id, "ENGINE", "", &engineer).unwrap();
    }
    assert_eq!(w.score(asset_id), Ok(60));
    w.now += 60 * 86_400;
    assert_eq!(w.score(asset_id), Ok(50));
}

#[test]
fn documented_score_examples() {
    let mut w = setup(0);
    let engineer = w.register_engineer();
    let a = w.register_asset();
    w.submit(a, "INSPECT", "", &engineer).unwrap();
    assert_eq!(w.score(a), Ok(2));
    let b = w.register_asset();
    w.submit(b, "OIL_CHG", "", &engineer).unwrap();
    w.submit(b, "FILTER", "", &engineer).unwrap();
    assert_eq!(w.score(b), Ok(7));
    let c = w.register_asset();
    for t in ["OIL_CHG", "FILTER", "ENGINE"] {
        w.submit(c, t, "", &engineer).unwrap();
    }
    assert_eq!(w.score(c), Ok(17));
}

#[test]
fn score_near_cap_is_clamped() {
    let mut w = setup(0);
    let asset_id = w.register_asset();
    let engineer = w.register_engineer();
    for _ in 0..19 {
        w.submit(asset_id, "FILTER", "", &engineer).unwrap();
    }
    assert_eq!(w.score(asset_id), Ok(95));
    w.submit(asset_id, "ENGINE", "", &engineer).unwrap();
    assert_eq!(w.score(asset_id), Ok(MAX_SCORE));
}

#[test]
fn every_task_of_each_tier_scores() {
    let mut w = setup(0);
    let engineer = w.register_engineer();
    for (task, points) in [
        ("OIL_CHG", 2),
        ("LUBE", 2),
        ("INSPECT", 2),
        ("FILTER", 5),
        ("TUNE_UP", 5),
        ("BRAKE", 5),
        ("ENGINE", 10),
        ("OVERHAUL", 10),
        ("REBUILD", 10),
    ] {
        let asset_id = w.register_asset();
        w.submit(asset_id, task, "", &engineer).unwrap();
        assert_eq!(w.score(asset_id), Ok(points));
    }
}

#[test]
fn notes_of_exactly_the_limit_are_accepted() {
    let mut w = setup(0);
    let asset_id = w.register_asset();
    let engineer = w.register_engineer();
    assert_eq!(w.submit(asset_id, "OIL_CHG", &"x".repeat(256), &engineer), Ok(()));
    assert_eq!(w.submit(asset_id, "OIL_CHG", &"x".repeat(257), &engineer), Err(ContractError::InvalidConfig));
    // a two-byte character counts twice
    assert_eq!(w.submit(asset_id, "OIL_CHG", &"é".repeat(129), &engineer), Err(ContractError::InvalidConfig));
}

#[test]
fn default_settings_after_initialize() {
    let w = setup(0);
    let c = w.lc.get_config().unwrap();
    assert_eq!(c.admin, s("admin"));
    assert_eq!(c.max_history, DEFAULT_MAX_HISTORY);
    assert_eq!(c.score_increment, 5);
    assert_eq!(c.decay_rate, 5);
    assert_eq!(c.decay_interval, DEFAULT_DECAY_INTERVAL);
    assert_eq!(c.eligibility_threshold, DEFAULT_ELIGIBILITY_THRESHOLD);
    assert_eq!(c.max_notes_length, 256);
    assert_eq!(w.lc.get_asset_registry(), Ok(s("asset_registry")));
    assert_eq!(w.lc.get_engineer_registry(), Ok(s("engineer_registry")));
}

#[test]
fn read_while_paused_applies_decay_without_writing_an_event() {
    let mut w = setup(0);
    let asset_id = w.register_asset();
    let engineer = w.register_engineer();
    w.submit(asset_id, "ENGINE", "", &engineer).unwrap();
    w.lc.pause(&s("admin")).unwrap();
    let before = w.lc.events().len();
    w.now += 2 * DEFAULT_DECAY_INTERVAL;
    assert_eq!(w.score(asset_id), Ok(0));
    assert_eq!(w.lc.events().len(), before);
    w.lc.unpause(&s("admin")).unwrap();
    assert_eq!(w.decay(asset_id), Ok(0));
}

#[test]
fn batch_emits_one_validation_event_per_record() {
    let mut w = setup(0);
    let asset_id = w.register_asset();
    let engineer = w.register_engineer();
    let before = w.lc.events().len();
    w.batch(asset_id, vec![record("OIL_CHG", ""), record("ENGINE", "")], &engineer).unwrap();
    assert_eq!(w.lc.events().len(), before + 2);
    assert_eq!(w.lc.events()[before], LifecycleEvent::RecordValidated { index: 0 });
    assert_eq!(w.lc.events()[before + 1], LifecycleEvent::RecordValidated { index: 1 });
}

#[test]
fn empty_batch_changes_nothing() {
    let mut w = setup(0);
    let asset_id = w.register_asset();
    let engineer = w.register_engineer();
    w.now = 77;
    let before = w.lc.events().len();
    w.batch(asset_id, Vec::new(), &engineer).unwrap();
    assert_eq!(w.history_len(asset_id), 0);
    assert_eq!(w.lc.get_score_history(asset_id).len(), 0);
    assert_eq!(w.lc.get_last_service_timestamp(asset_id), None);
    assert_eq!(w.lc.get_engineer_maintenance_history(&engineer).len(), 0);
    assert_eq!(w.lc.events().len(), before);
}

#[test]
fn lifecycle_second_proposal_is_refused_while_one_is_pending() {
    let mut w = setup(0);
    w.lc.propose_admin(&s("admin"), s("a")).unwrap();
    assert_eq!(w.lc.propose_admin(&s("admin"), s("b")), Err(ContractError::PendingAdminAlreadyExists));
    let mut fresh = Lifecycle::new();
    assert_eq!(fresh.accept_admin(), Err(ContractError::NotInitialized));
}

#[test]
fn prune_keeps_latest_score_snapshots() {
    let mut w = setup(10);
    let asset_id = w.register_asset();
    let engineer = w.register_engineer();
    for _ in 0..6 {
        w.submit(asset_id, "FILTER", "", &engineer).unwrap();
    }
    w.lc.update_max_history(&s("admin"), 2).unwrap();
    w.lc.prune_asset_history(&s("admin"), asset_id).unwrap();
    let h = w.lc.get_score_history(asset_id);
    assert_eq!(h.iter().map(|e| e.score).collect::<Vec<u32>>(), vec![25, 30]);
    assert_eq!(
        w.lc.events().last().unwrap(),
        &LifecycleEvent::HistoryPruned { admin: s("admin"), asset_id }
    );
}

#[test]
fn history_read_before_initialize_is_refused() {
    let lc = Lifecycle::new();
    assert_eq!(lc.get_maintenance_history(1, true), Err(QueryError::Lifecycle(ContractError::NotInitialized)));
    let mut lc2 = Lifecycle::new();
    assert_eq!(lc2.is_collateral_eligible(1, true, 0), Err(QueryError::Lifecycle(ContractError::NotInitialized)));
}

#[test]
fn batch_eligibility_decays_each_asset() {
    let mut w = setup(0);
    let engineer = w.register_engineer();
    let a = w.register_asset();
    for _ in 0..6 {
        w.submit(a, "ENGINE", "", &engineer).unwrap();
    }
    w.now += DEFAULT_DECAY_INTERVAL * 3;
    let found = vec![true, true];
    let r = w.lc.batch_is_collateral_eligible(&vec![a, a], &found, w.now).unwrap();
    assert_eq!(r, vec![false, false]);
    assert_eq!(w.score(a), Ok(45));
}

#[test]
fn decay_points_beyond_u32_clamp_at_zero() {
    let mut w = setup(0);
    let asset_id = w.register_asset();
    let engineer = w.register_engineer();
    w.submit(asset_id, "ENGINE", "", &engineer).unwrap();
    w.lc.update_decay_config(&s("admin"), u32::MAX, 1).unwrap();
    w.now = 5;
    assert_eq!(w.decay(asset_id), Ok(0));
    assert_eq!(w.score(asset_id), Ok(0));
}

#[test]
fn documented_aged_asset_loses_fifteen_points_over_ninety_days() {
    let mut w = setup(0);
    let asset_id = w.register_asset();
    let engineer = w.register_engineer();
    for _ in 0..8 {
        w.submit(asset_id, "ENGINE", "", &engineer).unwrap();
    }
    assert_eq!(w.score(asset_id), Ok(80));
    w.now += 90 * 86_400;
    assert_eq!(w.decay(asset_id), Ok(65));
}

#[test]
fn records_stay_as_written_through_decay_reset_and_batches() {
    let mut w = setup(0);
    let asset_id = w.register_asset();
    let engineer = w.register_engineer();
    w.now = 10;
    w.submit(asset_id, "OIL_CHG", "first", &engineer).unwrap();
    let before = w.lc.get_maintenance_history(asset_id, true).unwrap();
    w.now += 3 * DEFAULT_DECAY_INTERVAL;
    w.decay(asset_id).unwrap();
    w.lc.reset_score(&s("admin"), asset_id, w.now).unwrap();
    assert_eq!(w.lc.get_maintenance_history(asset_id, true).unwrap(), before);
    w.batch(asset_id, vec![record("LUBE", "second"), record("BRAKE", "third")], &engineer).unwrap();
    let after = w.lc.get_maintenance_history(asset_id, true).unwrap();
    assert_eq!(after.len(), 3);
    assert_eq!(after[0], before[0]);
    assert_eq!(after[1].timestamp, w.now);
    assert_eq!(after[2].timestamp, w.now);
    assert_eq!(after[2].notes, s("third"));
}

#[test]
fn submission_after_ninety_days_adds_to_the_decayed_score() {
    let mut w = setup(0);
    let asset_id = w.register_asset();
    let engineer = w.register_engineer();
    for _ in 0..8 {
        w.submit(asset_id, "ENGINE", "", &engineer).unwrap();
    }
    w.now += 7_776_000;
    w.submit(asset_id, "OIL_CHG", "", &engineer).unwrap();
    assert_eq!(
        w.lc.get_score_history(asset_id).last().unwrap(),
        &ScoreEntry { timestamp: 7_776_000, score: 67 }
    );
}

#[test]
fn frequent_decay_checks_do_not_stop_decay() {
    let mut w = setup(0);
    let asset_id = w.register_asset();
    let engineer = w.register_engineer();
    w.submit(asset_id, "ENGINE", "", &engineer).unwrap();
    w.lc.update_decay_config(&s("admin"), 3, 60).unwrap();
    w.now = 59;
    assert_eq!(w.decay(asset_id), Ok(10));
    w.now = 60;
    assert_eq!(w.decay(asset_id), Ok(7));
    w.now = 100;
    assert_eq!(w.score(asset_id), Ok(7));
    w.now = 120;
    assert_eq!(w.score(asset_id), Ok(4));
}

#[test]
fn last_service_time_is_not_moved_by_decay() {
    let mut w = setup(0);
    let asset_id = w.register_asset();
    let engineer = w.register_engineer();
    w.now = 1000;
    w.submit(asset_id, "ENGINE", "", &engineer).unwrap();
    w.now += DEFAULT_DECAY_INTERVAL;
    assert_eq!(w.decay(asset_id), Ok(5));
    assert_eq!(w.lc.get_last_service_timestamp(asset_id), Some(1000));
    w.submit(asset_id, "LUBE", "", &engineer).unwrap();
    assert_eq!(w.lc.get_last_service_timestamp(asset_id), Some(w.now));
}

#[test]
fn batch_after_decay_starts_from_the_decayed_score() {
    let mut w = setup(0);
    let asset_id = w.register_asset();
    let engineer = w.register_engineer();
    for _ in 0..4 {
        w.submit(asset_id, "ENGINE", "", &engineer).unwrap();
    }
    w.now += 2 * DEFAULT_DECAY_INTERVAL;
    w.batch(asset_id, vec![record("OIL_CHG", ""), record("FILTER", "")], &engineer).unwrap();
    assert_eq!(w.score(asset_id), Ok(37));
}

#[test]
fn submission_on_a_history_over_a_lowered_cap_is_refused() {
    let mut w = setup(10);
    let asset_id = w.register_asset();
    let engineer = w.register_engineer();
    for _ in 0..10 {
        w.submit(asset_id, "OIL_CHG", "Maintenance", &engineer).unwrap();
        w.now += 1;
    }
    let before = w.lc.get_maintenance_history(asset_id, true).unwrap();
    w.lc.update_max_history(&s("admin"), 3).unwrap();
    assert_eq!(w.submit(asset_id, "ENGINE", "latest", &engineer), Err(ContractError::HistoryCapReached));
    assert_eq!(w.lc.get_maintenance_history(asset_id, true).unwrap(), before);
    w.lc.prune_asset_history(&s("admin"), asset_id).unwrap();
    assert_eq!(w.history_len(asset_id), 3);
    assert_eq!(w.submit(asset_id, "ENGINE", "latest", &engineer), Err(ContractError::HistoryCapReached));
    w.lc.update_max_history(&s("admin"), 4).unwrap();
    w.submit(asset_id, "ENGINE", "latest", &engineer).unwrap();
    let after = w.lc.get_maintenance_history(asset_id, true).unwrap();
    assert_eq!(after.len(), 4);
    assert_eq!(after[0], before[7]);
    assert_eq!(after[3].task_type, "ENGINE");
}

#[test]
fn batch_on_a_history_over_a_lowered_cap_is_refused() {
    let mut w = setup(10);
    let asset_id = w.register_asset();
    let engineer = w.register_engineer();
    for _ in 0..5 {
        w.submit(asset_id, "OIL_CHG", "", &engineer).unwrap();
    }
    w.lc.update_max_history(&s("admin"), 2).unwrap();
    assert_eq!(w.batch(asset_id, vec![record("FILTER", "a")], &engineer), Err(ContractError::HistoryCapReached));
    assert_eq!(w.batch(asset_id, vec![], &engineer), Err(ContractError::HistoryCapReached));
    assert_eq!(w.history_len(asset_id), 5);
}

#[test]
fn batch_submission_matches_submissions_one_by_one() {
    let tasks = [("OIL_CHG", "a"), ("FILTER", "b"), ("ENGINE", "c")];
    let mut one = setup(0);
    let mut many = setup(0);
    let asset_one = one.register_asset();
    let asset_many = many.register_asset();
    let engineer_one = one.register_engineer();
    let engineer_many = many.register_engineer();
    one.submit(asset_one, "ENGINE", "", &engineer_one).unwrap();
    many.submit(asset_many, "ENGINE", "", &engineer_many).unwrap();
    one.now += DEFAULT_DECAY_INTERVAL;
    many.now += DEFAULT_DECAY_INTERVAL;
    let records: Vec<BatchRecord> = tasks.iter().map(|(t, n)| record(t, n)).collect();
    one.batch(asset_one, records, &engineer_one).unwrap();
    for (t, n) in tasks.iter() {
        many.submit(asset_many, t, n, &engineer_many).unwrap();
    }
    assert_eq!(
        one.lc.get_maintenance_history(asset_one, true).unwrap(),
        many.lc.get_maintenance_history(asset_many, true).unwrap()
    );
    assert_eq!(one.score(asset_one), many.score(asset_many));
    assert_eq!(one.score(asset_one), Ok(22));
    assert_eq!(one.lc.get_score_history(asset_one), many.lc.get_score_history(asset_many));
    assert_eq!(
        one.lc.get_last_service_timestamp(asset_one),
        many.lc.get_last_service_timestamp(asset_many)
    );
    assert_eq!(
        one.lc.get_engineer_maintenance_history(&engineer_one),
        many.lc.get_engineer_maintenance_history(&engineer_many)
    );
}

#[test]
fn batch_eligibility_matches_single_checks() {
    let mut w = setup(0);
    let engineer = w.register_engineer();
    let asset_a = w.register_asset();
    for _ in 0..5 {
        w.submit(asset_a, "ENGINE", "", &engineer).unwrap();
    }
    let asset_b = w.register_asset();
    w.submit(asset_b, "OIL_CHG", "", &engineer).unwrap();
    let ids = vec![asset_a, asset_b, asset_a];
    let found: Vec<bool> = ids.iter().map(|id| w.assets.asset_exists(*id)).collect();
    let batch = w.lc.batch_is_collateral_eligible(&ids, &found, w.now).unwrap();
    let singles: Vec<bool> = ids.iter().map(|id| w.eligible(*id).unwrap()).collect();
    assert_eq!(batch, singles);
    assert_eq!(batch, vec![true, false, true]);
}

#[test]
fn prechecks_answer_before_the_registries_are_asked() {
    let mut w = setup(0);
    assert_eq!(w.lc.submission_precheck(&s("OIL_CHG"), &s("ok")), Ok(()));
    assert_eq!(w.lc.submission_precheck(&s("BOGUS"), &s("ok")), Err(ContractError::InvalidTaskType));
    let long = "x".repeat(10_000);
    assert_eq!(w.lc.submission_precheck(&s("OIL_CHG"), &long), Err(ContractError::InvalidConfig));
    // an unknown asset and an unverified engineer do not change a precheck's answer
    assert_eq!(w.submit(999, "BOGUS", "ok", "nobody"), Err(ContractError::InvalidTaskType));
    assert_eq!(w.lc.batch_precheck(&vec![record("OIL_CHG", ""), record("FILTER", "")]), Ok(()));
    assert_eq!(
        w.lc.batch_precheck(&vec![record("OIL_CHG", ""), record("BOGUS", "")]),
        Err(ContractError::InvalidTaskType)
    );
    assert_eq!(w.batch(999, vec![record("BOGUS", "")], "nobody"), Err(ContractError::InvalidTaskType));
    w.lc.pause(&s("admin")).unwrap();
    assert_eq!(w.lc.submission_precheck(&s("OIL_CHG"), &s("ok")), Err(ContractError::Paused));
    assert_eq!(w.lc.batch_precheck(&vec![]), Err(ContractError::Paused));
    let fresh = Lifecycle::new();
    assert_eq!(fresh.submission_precheck(&s("OIL_CHG"), &s("ok")), Err(ContractError::NotInitialized));
}

#[test]
fn many_decay_checks_give_the_score_of_one() {
    let mut w = setup(0);
    let asset_id = w.register_asset();
    let other = w.register_asset();
    let engineer = w.register_engineer();
    w.submit(asset_id, "ENGINE", "", &engineer).unwrap();
    w.submit(other, "FILTER", "", &engineer).unwrap();
    w.lc.update_decay_config(&s("admin"), 3, 60).unwrap();
    let mut t = 0;
    while t <= 200 {
        w.now = t;
        let expected = 10u32.saturating_sub(3 * (t / 60) as u32);
        let got = match t % 3 {
            0 => w.decay(asset_id),
            1 => w.score(asset_id),
            _ => {
                w.decay(other).unwrap();
                w.score(asset_id)
            },
        };
        assert_eq!(got, Ok(expected), "at {}", t);
        t += 7;
    }
    assert_eq!(w.eligible(asset_id), Ok(false));
}
