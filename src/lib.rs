//! Reconciles the machine-wide and per-user command search paths: removes
//! duplicates, builds a minimal per-user value from discovered tool
//! directories, and applies it with backup, verification and rollback.
pub mod pathvalue;
pub mod discovery;
pub mod minimal;
pub mod cleaner;
pub mod system;
pub mod reconcile;
pub mod invariant_ppt;

pub use cleaner::{
    compute_diff, dedup_scope, posix_mirror, reg_backup_content, shared_entries, PathDiff,
    ScopeCleanup,
};
pub use discovery::{
    add_dir_candidates, command_name, discover_candidates, Candidate, CandidateMap, DirListing,
};
pub use invariant_ppt::{
    assert_invariant, clear_invariant_log, contract_test, ContractFailure, InvariantLog,
};
pub use minimal::{build_minimal_path, looks_unusual};
pub use pathvalue::{join_strings, split_entries, win_to_posix};
pub use reconcile::{
    apply_path, artifact_paths, artifact_paths_in, clean_system_path, heal_path, run_healing, ApplyError, ApplyState,
    ArtifactPaths, HealReport, MachineCleanup,
};
pub use system::{probes_pass, MockSystem, SysError, SystemOps, HEALTH_THRESHOLD};
