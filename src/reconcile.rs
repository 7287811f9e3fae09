//! The transactional apply sequence and the reconciliation run around it.
use vstd::prelude::*;
use crate::cleaner::{
    backup_text, compute_diff, dedup_first, dedup_scope, entries_not_in, mirror_text, posix_mirror,
    reg_backup_content, PathDiff, ScopeCleanup,
};
use crate::discovery::{discover_candidates, discovered, CandidateMap, CandidateMapView, DirListing};
use crate::minimal::{
    build_looks_unusual, build_minimal_path, is_built_value, keys_of, lemma_build_is_deterministic,
    looks_unusual,
};
use crate::pathvalue::{entries_of, join_with, opt_str, opt_view, views};
use crate::system::{Effect, SysError, SystemOps};

verus! {

/// A scope value read as `o`, with absence read as empty.
pub open spec fn value_or_empty(o: Option<Seq<char>>) -> Seq<char> {
    match o {
        Some(v) => v,
        None => Seq::empty(),
    }
}

/// The deduplicated form of a raw scope value.
pub open spec fn cleaned_value(raw: Seq<char>) -> Seq<char> {
    join_with(dedup_first(entries_of(raw)), ';')
}

/// `c` is the outcome of deduplicating `raw`.
pub open spec fn is_cleanup_of(c: ScopeCleanup, raw: Seq<char>) -> bool {
    &&& c.value@ == cleaned_value(raw)
    &&& c.raw_count == entries_of(raw).len()
    &&& c.deduplicated_count == dedup_first(entries_of(raw)).len()
}

/// How an apply attempt failed.
pub enum ApplyError {
    /// Writing the new value failed; the user scope is unchanged.
    WriteFailed(SysError),
    /// The new value failed verification; the prior value was written back.
    RolledBack,
    /// The new value failed verification and writing the prior value back
    /// failed too: the user scope needs manual repair.
    RollbackFailed(SysError),
}

impl ApplyError {
    /// Whether the user scope may now be left in a broken state.
    pub fn needs_manual_recovery(&self) -> (r: bool)
        ensures
            r == (self is RollbackFailed),
    {
        match self {
            ApplyError::RollbackFailed(_) => true,
            _ => false,
        }
    }
}

/// The states of one apply attempt.
#[derive(Clone, Copy, Debug, PartialEq, Eq, Structural)]
pub enum ApplyState {
    Idle,
    BackedUp,
    Written,
    Broadcast,
    RollingBack,
    /// Terminal: the new value is in place and verified.
    Committed,
    /// Terminal: the write failed; nothing changed.
    Aborted,
    /// Terminal: verification failed and the prior value is back.
    RolledBack,
    /// Terminal: verification failed and the prior value could not be restored.
    Unrecoverable,
}

/// Position of a state along the single forward pass.
pub open spec fn stage(s: ApplyState) -> nat {
    match s {
        ApplyState::Idle => 0,
        ApplyState::BackedUp => 1,
        ApplyState::Written => 2,
        ApplyState::Broadcast => 3,
        ApplyState::RollingBack => 4,
        _ => 5,
    }
}

/// Whether the attempt is over.
pub open spec fn is_terminal(s: ApplyState) -> bool {
    stage(s) == 5
}

/// The state after the step of state `s` ended with `ok`: the backup and the
/// broadcasts move on whatever their outcome; the write, the verification
/// and the rollback write branch on it.
pub open spec fn next_state(s: ApplyState, ok: bool) -> ApplyState {
    match s {
        ApplyState::Idle => ApplyState::BackedUp,
        ApplyState::BackedUp => if ok {
            ApplyState::Written
        } else {
            ApplyState::Aborted
        },
        ApplyState::Written => ApplyState::Broadcast,
        ApplyState::Broadcast => if ok {
            ApplyState::Committed
        } else {
            ApplyState::RollingBack
        },
        ApplyState::RollingBack => if ok {
            ApplyState::RolledBack
        } else {
            ApplyState::Unrecoverable
        },
        _ => s,
    }
}

impl ApplyState {
    /// Whether the attempt is over.
    pub fn terminal(&self) -> (r: bool)
        ensures
            r == is_terminal(*self),
    {
        match self {
            ApplyState::Committed | ApplyState::Aborted | ApplyState::RolledBack
            | ApplyState::Unrecoverable => true,
            _ => false,
        }
    }

    /// Moves on from a state that is not terminal; no state is entered twice.
    pub fn advance(self, ok: bool) -> (r: ApplyState)
        requires
            !is_terminal(self),
        ensures
            r == next_state(self, ok),
            stage(r) > stage(self),
    {
        match self {
            ApplyState::Idle => ApplyState::BackedUp,
            ApplyState::BackedUp => if ok {
                ApplyState::Written
            } else {
                ApplyState::Aborted
            },
            ApplyState::Written => ApplyState::Broadcast,
            ApplyState::Broadcast => if ok {
                ApplyState::Committed
            } else {
                ApplyState::RollingBack
            },
            ApplyState::RollingBack => if ok {
                ApplyState::RolledBack
            } else {
                ApplyState::Unrecoverable
            },
            other => other,
        }
    }
}

/// What the user scope holds in each state of an attempt that writes `new`
/// over `prior` (the value read first, absent read as empty) in a scope that
/// held `start`.
pub open spec fn scope_in_state(
    s: ApplyState,
    start: Option<Seq<char>>,
    prior: Seq<char>,
    new: Seq<char>,
) -> Option<Seq<char>> {
    match s {
        ApplyState::Idle | ApplyState::BackedUp | ApplyState::Aborted => start,
        ApplyState::RolledBack => Some(prior),
        _ => Some(new),
    }
}

/// The backup attempt of an apply: the backup record of `prior` written to
/// `backup_file`, if a location is known.
pub open spec fn backup_effects(backup_file: Option<Seq<char>>, prior: Seq<char>) -> Seq<Effect> {
    match backup_file {
        Some(p) => seq![Effect::SideFile(p, backup_text(prior))],
        None => Seq::empty(),
    }
}

/// The operations an apply attempt has made on reaching state `s`, when it
/// writes `new` over the prior value `prior`.
pub open spec fn apply_trace(
    s: ApplyState,
    backup_file: Option<Seq<char>>,
    prior: Seq<char>,
    new: Seq<char>,
) -> Seq<Effect> {
    let b = backup_effects(backup_file, prior);
    let written = b.push(Effect::WriteUser(new, true));
    let announced = written + seq![Effect::Broadcast, Effect::Settle, Effect::Broadcast];
    match s {
        ApplyState::Idle => Seq::empty(),
        ApplyState::BackedUp => b,
        ApplyState::Aborted => b.push(Effect::WriteUser(new, false)),
        ApplyState::Written => written,
        ApplyState::Broadcast => announced,
        ApplyState::Committed => announced.push(Effect::Probe(true)),
        ApplyState::RollingBack => announced.push(Effect::Probe(false)),
        ApplyState::RolledBack => announced.push(Effect::Probe(false)).push(
            Effect::WriteUser(prior, true),
        ).push(Effect::Broadcast),
        ApplyState::Unrecoverable => announced.push(Effect::Probe(false)).push(
            Effect::WriteUser(prior, false),
        ),
    }
}

/// The terminal state that a result of `apply_path` reports.
pub open spec fn reported_state<T>(r: Result<T, ApplyError>) -> ApplyState {
    match r {
        Ok(_) => ApplyState::Committed,
        Err(ApplyError::WriteFailed(_)) => ApplyState::Aborted,
        Err(ApplyError::RolledBack) => ApplyState::RolledBack,
        Err(ApplyError::RollbackFailed(_)) => ApplyState::Unrecoverable,
    }
}

/// Commits `new_val` to the user scope, or leaves it as it was.
///
/// Reads the prior value (absent reads as empty), writes the backup record
/// to `backup_file` if given (a failure there is ignored), writes the new
/// value, broadcasts twice around a settle wait, and runs the health probes.
/// When they fail, the prior value is written back. The attempt walks the
/// states of `ApplyState` once, forward.
pub fn apply_path<S: SystemOps>(system: &mut S, new_val: &str, backup_file: Option<&str>) -> (r: Result<
    (),
    ApplyError,
>)
    ensures
        final(system).machine_scope() == old(system).machine_scope(),
        r is Ok ==> final(system).user_scope() == Some(new_val@),
        (r matches Err(ApplyError::WriteFailed(_))) ==> final(system).user_scope() == old(
            system,
        ).user_scope(),
        (r matches Err(ApplyError::RolledBack)) ==> final(system).user_scope() == Some(
            value_or_empty(old(system).user_scope()),
        ),
        (r matches Err(ApplyError::RollbackFailed(_))) ==> final(system).user_scope() == Some(
            new_val@,
        ),
        final(system).effects() == old(system).effects() + apply_trace(
            reported_state(r),
            opt_str(backup_file),
            value_or_empty(old(system).user_scope()),
            new_val@,
        ),
{
    let ghost start = system.user_scope();
    let ghost e0 = system.effects();
    let ghost machine = system.machine_scope();
    let old_val = match system.read_user_path_registry() {
        Ok(v) => v,
        Err(_) => String::new(),
    };
    assert(old_val@ == value_or_empty(start));
    let mut state = ApplyState::Idle;
    let mut failure: Option<SysError> = None;
    while !state.terminal()
        invariant
            system.machine_scope() == machine,
            system.user_scope() == scope_in_state(state, start, old_val@, new_val@),
            old_val@ == value_or_empty(start),
            (state is Aborted || state is Unrecoverable) ==> failure is Some,
            system.effects() == e0 + apply_trace(state, opt_str(backup_file), old_val@, new_val@),
        decreases 5 - stage(state),
    {
        let ok = match state {
            ApplyState::Idle => {
                if let Some(path) = backup_file {
                    let content = reg_backup_content(old_val.as_str());
                    let _ = system.write_backup_file(path, content.as_str());
                }
                true
            },
            ApplyState::BackedUp => match system.write_user_path_registry(new_val) {
                Ok(()) => true,
                Err(e) => {
                    failure = Some(e);
                    false
                },
            },
            ApplyState::Written => {
                let _ = system.broadcast_environment_change();
                system.wait_for_settle();
                let _ = system.broadcast_environment_change();
                true
            },
            ApplyState::Broadcast => system.verify_environment_health(),
            _ => match system.write_user_path_registry(old_val.as_str()) {
                Ok(()) => {
                    let _ = system.broadcast_environment_change();
                    true
                },
                Err(e) => {
                    failure = Some(e);
                    false
                },
            },
        };
        state = state.advance(ok);
    }
    match state {
        ApplyState::Committed => Ok(()),
        ApplyState::RolledBack => Err(ApplyError::RolledBack),
        ApplyState::Aborted => Err(ApplyError::WriteFailed(failure.unwrap())),
        _ => Err(ApplyError::RollbackFailed(failure.unwrap())),
    }
}

/// The outcome of cleaning the machine scope.
pub struct MachineCleanup {
    pub cleanup: ScopeCleanup,
    /// Whether the deduplicated value was written.
    pub written: bool,
}

/// The operations of a machine-scope cleanup: the write of the deduplicated
/// value, when the scope was read, has duplicates and this is no dry run.
pub open spec fn cleanup_trace(machine: Option<Seq<char>>, dry_run: bool, ok: bool) -> Seq<Effect> {
    match machine {
        Some(raw) => if !dry_run && entries_of(raw).len() != dedup_first(entries_of(raw)).len() {
            seq![Effect::WriteSystem(cleaned_value(raw), ok)]
        } else {
            Seq::empty()
        },
        None => Seq::empty(),
    }
}

/// Removes duplicate entries from the machine scope.
///
/// An unreadable machine scope is an error and changes nothing. When the
/// value has no duplicates, or on a dry run, nothing is written.
pub fn clean_system_path<S: SystemOps>(system: &mut S, dry_run: bool) -> (r: Result<
    MachineCleanup,
    SysError,
>)
    ensures
        final(system).user_scope() == old(system).user_scope(),
        old(system).machine_scope() is None ==> r is Err && *final(system) == *old(system),
        dry_run ==> *final(system) == *old(system),
        old(system).machine_scope() is Some && (dry_run || entries_of(
            old(system).machine_scope()->0,
        ).len() == dedup_first(entries_of(old(system).machine_scope()->0)).len()) ==> r is Ok,
        r is Ok ==> {
            &&& old(system).machine_scope() is Some
            &&& is_cleanup_of(r->Ok_0.cleanup, old(system).machine_scope()->0)
            &&& r->Ok_0.written == (!dry_run && r->Ok_0.cleanup.raw_count
                != r->Ok_0.cleanup.deduplicated_count)
            &&& r->Ok_0.written ==> final(system).machine_scope() == Some(r->Ok_0.cleanup.value@)
            &&& !r->Ok_0.written ==> *final(system) == *old(system)
        },
        r is Err ==> final(system).machine_scope() == old(system).machine_scope(),
        old(system).machine_scope() is Some && r is Err ==> !dry_run,
        final(system).effects() == old(system).effects() + cleanup_trace(
            old(system).machine_scope(),
            dry_run,
            r is Ok,
        ),
{
    let raw = match system.read_system_path_registry() {
        Ok(v) => v,
        Err(e) => {
            return Err(e);
        },
    };
    let cleanup = dedup_scope(raw.as_str());
    if !cleanup.changed() || dry_run {
        return Ok(MachineCleanup { cleanup, written: false });
    }
    match system.write_system_path_registry(cleanup.value.as_str()) {
        Ok(()) => Ok(MachineCleanup { cleanup, written: true }),
        Err(e) => Err(e),
    }
}

/// Where the side files go: the backup record and the POSIX mirror.
pub struct ArtifactPaths {
    pub backup: Option<String>,
    pub mirror: Option<String>,
}

/// Relies on `directories::BaseDirs::new` and `BaseDirs::data_local_dir`:
/// the per-user local data directory, when a home directory is known.
#[verifier::external_body]
fn local_data_dir() -> (r: Option<String>) {
    match directories::BaseDirs::new() {
        Some(b) => Some(b.data_local_dir().to_string_lossy().into_owned()),
        None => None,
    }
}

/// Relies on `directories::UserDirs::new` and `UserDirs::home_dir`: the
/// user's home directory, when it is known.
#[verifier::external_body]
fn user_home_dir() -> (r: Option<String>) {
    match directories::UserDirs::new() {
        Some(u) => Some(u.home_dir().to_string_lossy().into_owned()),
        None => None,
    }
}

/// What `std::path::Path::join` gives for a base and a child path.
pub uninterp spec fn path_joined(base: Seq<char>, child: Seq<char>) -> Seq<char>;

/// Relies on `std::path::Path::join`: the result depends on the two paths
/// alone.
#[verifier::external_body]
fn join_path(base: &str, child: &str) -> (r: String)
    ensures
        r@ == path_joined(base@, child@),
{
    std::path::Path::new(base).join(child).to_string_lossy().into_owned()
}

/// Where the backup record goes under the local data directory `data_dir`.
pub open spec fn backup_location(data_dir: Seq<char>) -> Seq<char> {
    path_joined(path_joined(data_dir, "wanderlust"@), "backup.reg"@)
}

/// Where the POSIX mirror goes in the home directory `home`.
pub open spec fn mirror_location(home: Seq<char>) -> Seq<char> {
    path_joined(home, ".wanderlust_posix"@)
}

/// The side-file locations for a local data directory and a home
/// directory: `wanderlust/backup.reg` under the first, `.wanderlust_posix`
/// in the second; none where the directory is unknown.
pub fn artifact_paths_in(data_dir: Option<&str>, home: Option<&str>) -> (r: ArtifactPaths)
    ensures
        r.backup is Some <==> data_dir is Some,
        r.backup is Some ==> r.backup->0@ == backup_location(data_dir->0@),
        r.mirror is Some <==> home is Some,
        r.mirror is Some ==> r.mirror->0@ == mirror_location(home->0@),
{
    let backup = match data_dir {
        Some(base) => {
            let dir = join_path(base, "wanderlust");
            Some(join_path(dir.as_str(), "backup.reg"))
        },
        None => None,
    };
    let mirror = match home {
        Some(h) => Some(join_path(h, ".wanderlust_posix")),
        None => None,
    };
    ArtifactPaths { backup, mirror }
}

/// The side-file locations on this machine: as `artifact_paths_in`, with
/// the directories that the platform reports.
pub fn artifact_paths() -> (r: ArtifactPaths)
    ensures
        r.backup is Some ==> exists|d: Seq<char>| r.backup->0@ == backup_location(d),
        r.mirror is Some ==> exists|h: Seq<char>| r.mirror->0@ == mirror_location(h),
{
    let data = local_data_dir();
    let home = user_home_dir();
    let data_ref = match &data {
        Some(d) => Some(d.as_str()),
        None => None,
    };
    let home_ref = match &home {
        Some(h) => Some(h.as_str()),
        None => None,
    };
    artifact_paths_in(data_ref, home_ref)
}

/// What a reconciliation run computed and whether it applied it.
pub struct HealReport {
    /// The machine scope as read, with its deduplicated form.
    pub machine: ScopeCleanup,
    /// The user scope before the run (absent reads as empty).
    pub user_before: String,
    /// The built user-scope value.
    pub user_after: String,
    /// From `user_before` to `user_after`.
    pub diff: PathDiff,
    /// Whether the value was committed (false on a dry run).
    pub applied: bool,
    /// Candidates were found but the built value holds no user-profile
    /// directory: a warning for the operator, not an error.
    pub flagged: bool,
}

/// `rep` is what a run computes from the candidate map `m`, the prior user
/// scope `before` and the machine scope `machine`.
pub open spec fn report_matches(
    rep: HealReport,
    m: CandidateMapView,
    before: Seq<char>,
    machine: Seq<char>,
) -> bool {
    &&& is_cleanup_of(rep.machine, machine)
    &&& rep.user_before@ == before
    &&& is_built_value(m, machine, rep.user_after@)
    &&& rep.flagged == build_looks_unusual(m, rep.user_after@)
    &&& views(rep.diff.adding@) == entries_not_in(
        entries_of(rep.user_after@),
        keys_of(entries_of(before)),
    )
    &&& views(rep.diff.removing@) == entries_not_in(
        entries_of(before),
        keys_of(entries_of(rep.user_after@)),
    )
}

/// The mirror write after a commit, if a location is known.
pub open spec fn mirror_effects(mirror_file: Option<Seq<char>>, machine: Seq<char>, user: Seq<char>) -> Seq<
    Effect,
> {
    match mirror_file {
        Some(p) => seq![Effect::SideFile(p, mirror_text(machine, user))],
        None => Seq::empty(),
    }
}

/// The operations of a run that applied `v`, given its result `r`: the
/// apply attempt, then the mirror write if it committed.
pub open spec fn run_trace<T>(
    r: Result<T, ApplyError>,
    paths: ArtifactPaths,
    before: Seq<char>,
    machine: Seq<char>,
    v: Seq<char>,
) -> Seq<Effect> {
    apply_trace(reported_state(r), opt_view(paths.backup), before, v) + if r is Ok {
        mirror_effects(opt_view(paths.mirror), machine, v)
    } else {
        Seq::empty()
    }
}

/// Builds the user-scope value from `candidates` against the current machine
/// scope and, unless `dry_run`, applies it; after a successful apply the
/// POSIX mirror is written to `paths.mirror` (a failure there is ignored).
/// A dry run only reads: it writes nothing, backs up nothing and broadcasts
/// nothing, which `*final(system) == *old(system)` states for every `S`.
pub fn run_healing<S: SystemOps>(
    candidates: &CandidateMap,
    system: &mut S,
    dry_run: bool,
    paths: &ArtifactPaths,
) -> (r: Result<HealReport, ApplyError>)
    ensures
        final(system).machine_scope() == old(system).machine_scope(),
        dry_run ==> r is Ok && *final(system) == *old(system),
        r is Ok ==> report_matches(
            r->Ok_0,
            candidates@,
            value_or_empty(old(system).user_scope()),
            value_or_empty(old(system).machine_scope()),
        ),
        r is Ok ==> r->Ok_0.applied == !dry_run,
        r is Ok && !dry_run ==> final(system).user_scope() == Some(r->Ok_0.user_after@),
        (r matches Err(ApplyError::WriteFailed(_))) ==> final(system).user_scope() == old(
            system,
        ).user_scope(),
        (r matches Err(ApplyError::RolledBack)) ==> final(system).user_scope() == Some(
            value_or_empty(old(system).user_scope()),
        ),
        (r matches Err(ApplyError::RollbackFailed(_))) ==> {
            &&& final(system).user_scope() is Some
            &&& is_built_value(
                candidates@,
                value_or_empty(old(system).machine_scope()),
                final(system).user_scope()->0,
            )
        },
        !dry_run ==> exists|v: Seq<char>|
            {
                &&& is_built_value(candidates@, value_or_empty(old(system).machine_scope()), v)
                &&& (r is Ok ==> r->Ok_0.user_after@ == v)
                &&& final(system).effects() == old(system).effects() + #[trigger] run_trace(
                    r,
                    *paths,
                    value_or_empty(old(system).user_scope()),
                    value_or_empty(old(system).machine_scope()),
                    v,
                )
            },
{
    let ghost e0 = system.effects();
    let before = match system.read_user_path_registry() {
        Ok(v) => v,
        Err(_) => String::new(),
    };
    let machine = match system.read_system_path_registry() {
        Ok(v) => v,
        Err(_) => String::new(),
    };
    let after = build_minimal_path(candidates, machine.as_str());
    let diff = compute_diff(before.as_str(), after.as_str());
    let machine_cleanup = dedup_scope(machine.as_str());
    let flagged = looks_unusual(candidates, after.as_str());
    if dry_run {
        return Ok(
            HealReport {
                machine: machine_cleanup,
                user_before: before,
                user_after: after,
                diff,
                applied: false,
                flagged,
            },
        );
    }
    let backup = match &paths.backup {
        Some(p) => Some(p.as_str()),
        None => None,
    };
    assert(opt_str(backup) == opt_view(paths.backup));
    assert(before@ == value_or_empty(old(system).user_scope()));
    assert(machine@ == value_or_empty(old(system).machine_scope()));
    let applied = apply_path(system, after.as_str(), backup);
    match applied {
        Err(e) => {
            let r: Result<HealReport, ApplyError> = Err(e);
            assert(run_trace(r, *paths, before@, machine@, after@) =~= apply_trace(
                reported_state(r),
                opt_view(paths.backup),
                before@,
                after@,
            ));
            assert(final_trace_holds(system.effects(), e0, r, *paths, before@, machine@, after@));
            return r;
        },
        Ok(()) => {},
    }
    let ghost e1 = system.effects();
    if let Some(mirror_file) = &paths.mirror {
        let content = posix_mirror(machine.as_str(), after.as_str());
        let _ = system.write_backup_file(mirror_file.as_str(), content.as_str());
    }
    let r: Result<HealReport, ApplyError> = Ok(
        HealReport {
            machine: machine_cleanup,
            user_before: before,
            user_after: after,
            diff,
            applied: true,
            flagged,
        },
    );
    assert(system.effects() =~= e1 + mirror_effects(opt_view(paths.mirror), machine@, after@));
    assert(e1 == e0 + apply_trace(ApplyState::Committed, opt_view(paths.backup), before@, after@));
    assert(run_trace(r, *paths, before@, machine@, after@) == apply_trace(
        ApplyState::Committed,
        opt_view(paths.backup),
        before@,
        after@,
    ) + mirror_effects(opt_view(paths.mirror), machine@, after@));
    assert(system.effects() =~= e0 + run_trace(r, *paths, before@, machine@, after@));
    assert(final_trace_holds(system.effects(), e0, r, *paths, before@, machine@, after@));
    r
}

/// `now` is `start` followed by the operations of a run that applied `v`.
spec fn final_trace_holds<T>(
    now: Seq<Effect>,
    start: Seq<Effect>,
    r: Result<T, ApplyError>,
    paths: ArtifactPaths,
    before: Seq<char>,
    machine: Seq<char>,
    v: Seq<char>,
) -> bool {
    now == start + run_trace(r, paths, before, machine, v)
}

/// One reconciliation: builds the candidate map from `listings`, cleans the
/// machine scope (best effort: an unreadable or unwritable machine scope is
/// skipped), then runs the user-scope healing against the machine scope as
/// it now stands.
pub fn heal_path<S: SystemOps>(system: &mut S, listings: &Vec<DirListing>, dry_run: bool) -> (r:
    Result<HealReport, ApplyError>)
    ensures
        dry_run ==> r is Ok && *final(system) == *old(system),
        final(system).machine_scope() == old(system).machine_scope() || final(system).machine_scope()
            == Some(cleaned_value(old(system).machine_scope()->0)),
        r is Ok ==> report_matches(
            r->Ok_0,
            discovered(listings@.map_values(|l: DirListing| l@)),
            value_or_empty(old(system).user_scope()),
            value_or_empty(final(system).machine_scope()),
        ),
        r is Ok ==> r->Ok_0.applied == !dry_run,
        r is Ok && !dry_run ==> final(system).user_scope() == Some(r->Ok_0.user_after@),
        (r matches Err(ApplyError::WriteFailed(_))) ==> final(system).user_scope() == old(
            system,
        ).user_scope(),
        (r matches Err(ApplyError::RolledBack)) ==> final(system).user_scope() == Some(
            value_or_empty(old(system).user_scope()),
        ),
        (r matches Err(ApplyError::RollbackFailed(_))) ==> {
            &&& final(system).user_scope() is Some
            &&& is_built_value(
                discovered(listings@.map_values(|l: DirListing| l@)),
                value_or_empty(final(system).machine_scope()),
                final(system).user_scope()->0,
            )
        },
        !dry_run ==> exists|cleaned: bool, paths: ArtifactPaths, v: Seq<char>|
            {
                &&& is_built_value(
                    discovered(listings@.map_values(|l: DirListing| l@)),
                    value_or_empty(final(system).machine_scope()),
                    v,
                )
                &&& (r is Ok ==> r->Ok_0.user_after@ == v)
                &&& (paths.backup is Some ==> exists|d: Seq<char>|
                    paths.backup->0@ == backup_location(d))
                &&& (paths.mirror is Some ==> exists|h: Seq<char>|
                    paths.mirror->0@ == mirror_location(h))
                &&& final(system).effects() == old(system).effects() + #[trigger] cleanup_trace(
                    old(system).machine_scope(),
                    false,
                    cleaned,
                ) + #[trigger] run_trace(
                    r,
                    paths,
                    value_or_empty(old(system).user_scope()),
                    value_or_empty(final(system).machine_scope()),
                    v,
                )
            },
{
    let ghost e0 = system.effects();
    let candidates = discover_candidates(listings);
    let cleanup = clean_system_path(system, dry_run);
    let ghost cleaned = cleanup is Ok;
    let ghost e1 = system.effects();
    let paths = artifact_paths();
    let r = run_healing(&candidates, system, dry_run, &paths);
    proof {
        if !dry_run {
            let v = choose|v: Seq<char>|
                {
                    &&& is_built_value(candidates@, value_or_empty(system.machine_scope()), v)
                    &&& (r is Ok ==> r->Ok_0.user_after@ == v)
                    &&& system.effects() == e1 + #[trigger] run_trace(
                        r,
                        paths,
                        value_or_empty(old(system).user_scope()),
                        value_or_empty(system.machine_scope()),
                        v,
                    )
                };
            assert(system.effects() =~= e0 + cleanup_trace(old(system).machine_scope(), false, cleaned)
                + run_trace(
                r,
                paths,
                value_or_empty(old(system).user_scope()),
                value_or_empty(system.machine_scope()),
                v,
            ));
        }
    }
    r
}

/// Healing a system whose user scope already holds the value built from the
/// same candidates and machine scope computes that same value again, with
/// nothing to add and nothing to remove; a committed run then leaves the
/// user scope as it was.
pub proof fn lemma_healing_is_idempotent(
    m: CandidateMapView,
    machine: Seq<char>,
    current: Seq<char>,
    rep: HealReport,
)
    requires
        is_built_value(m, machine, current),
        report_matches(rep, m, current, machine),
    ensures
        rep.user_after@ == current,
        rep.diff.adding@.len() == 0,
        rep.diff.removing@.len() == 0,
{
    lemma_build_is_deterministic(m, machine, rep.user_after@, current);
    crate::cleaner::lemma_diff_with_itself_is_empty(current);
}

/// A dry run and an applying run over the same candidates and scopes
/// compute the same value and the same changes, character for character.
pub proof fn lemma_dry_run_matches_apply(
    m: CandidateMapView,
    before: Seq<char>,
    machine: Seq<char>,
    dry: HealReport,
    applied: HealReport,
)
    requires
        report_matches(dry, m, before, machine),
        report_matches(applied, m, before, machine),
    ensures
        dry.user_after@ == applied.user_after@,
        views(dry.diff.adding@) == views(applied.diff.adding@),
        views(dry.diff.removing@) == views(applied.diff.removing@),
{
    lemma_build_is_deterministic(m, machine, dry.user_after@, applied.user_after@);
}

} // verus!
