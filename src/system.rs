//! The capability surface through which the reconciler touches the machine:
//! the two configuration scopes, the change broadcast, side files and health
//! probes. `MockSystem` is an in-memory implementation for tests.
use vstd::prelude::*;
use crate::pathvalue::opt_view;

verus! {

/// A failed operation on the system, with a description.
pub struct SysError {
    pub message: String,
}

impl SysError {
    pub fn new(message: &str) -> (r: SysError)
        ensures
            r.message@ == message@,
    {
        SysError { message: message.to_owned() }
    }
}

/// One operation with an effect, as the system recorded it.
pub enum Effect {
    /// A user-scope write of a value, and whether it succeeded.
    WriteUser(Seq<char>, bool),
    /// A machine-scope write of a value, and whether it succeeded.
    WriteSystem(Seq<char>, bool),
    /// An attempt to write a side file: its path and content.
    SideFile(Seq<char>, Seq<char>),
    /// A change broadcast.
    Broadcast,
    /// A settle wait.
    Settle,
    /// A run of the health probes, and whether they passed.
    Probe(bool),
}

/// Access to the configuration store and the rest of the machine.
///
/// `user_scope` and `machine_scope` model what a read of each scope returns:
/// `None` when it cannot be read. Every operation other than the writes of
/// a scope leaves both unchanged, and a failed write changes nothing.
///
/// Only the two reads and `path_exists` take `&self`; every operation with
/// an effect (a write, a side file, a broadcast, a wait, a probe run) takes
/// `&mut self`. So a caller that ends with `*final(system) == *old(system)`
/// for an arbitrary implementation has made none of them. `effects` is the
/// record of those operations, in order; each of them appends its entry.
///
/// An implementation outside verified code (the registry-backed one of the
/// command-line program) carries no such model, and nothing checks it
/// against these contracts.
pub trait SystemOps {
    spec fn user_scope(&self) -> Option<Seq<char>>;

    spec fn machine_scope(&self) -> Option<Seq<char>>;

    spec fn effects(&self) -> Seq<Effect>;

    /// Reads the user-scope value.
    fn read_user_path_registry(&self) -> (r: Result<String, SysError>)
        ensures
            r is Ok <==> self.user_scope() is Some,
            r is Ok ==> self.user_scope() == Some(r->Ok_0@),
    ;

    /// Replaces the user-scope value.
    fn write_user_path_registry(&mut self, new_path: &str) -> (r: Result<(), SysError>)
        ensures
            r is Ok ==> final(self).user_scope() == Some(new_path@),
            r is Err ==> final(self).user_scope() == old(self).user_scope(),
            final(self).machine_scope() == old(self).machine_scope(),
            final(self).effects() == old(self).effects().push(Effect::WriteUser(new_path@, r is Ok)),
    ;

    /// Tells running programs that the environment changed; advisory only.
    fn broadcast_environment_change(&mut self) -> (r: Result<(), SysError>)
        ensures
            final(self).user_scope() == old(self).user_scope(),
            final(self).machine_scope() == old(self).machine_scope(),
            final(self).effects() == old(self).effects().push(Effect::Broadcast),
    ;

    /// Waits for listeners of a broadcast to settle.
    fn wait_for_settle(&mut self)
        ensures
            final(self).user_scope() == old(self).user_scope(),
            final(self).machine_scope() == old(self).machine_scope(),
            final(self).effects() == old(self).effects().push(Effect::Settle),
    ;

    /// Whether a directory exists.
    fn path_exists(&self, path: &str) -> bool;

    /// Writes a side file (a backup or a cache).
    fn write_backup_file(&mut self, path: &str, content: &str) -> (r: Result<(), SysError>)
        ensures
            final(self).user_scope() == old(self).user_scope(),
            final(self).machine_scope() == old(self).machine_scope(),
            final(self).effects() == old(self).effects().push(Effect::SideFile(path@, content@)),
    ;

    /// Runs the health probes; true when enough of them pass.
    fn verify_environment_health(&mut self) -> (r: bool)
        ensures
            final(self).user_scope() == old(self).user_scope(),
            final(self).machine_scope() == old(self).machine_scope(),
            final(self).effects() == old(self).effects().push(Effect::Probe(r)),
    ;

    /// Reads the machine-scope value.
    fn read_system_path_registry(&self) -> (r: Result<String, SysError>)
        ensures
            r is Ok <==> self.machine_scope() is Some,
            r is Ok ==> self.machine_scope() == Some(r->Ok_0@),
    ;

    /// Replaces the machine-scope value (needs elevated privilege).
    fn write_system_path_registry(&mut self, new_path: &str) -> (r: Result<(), SysError>)
        ensures
            r is Ok ==> final(self).machine_scope() == Some(new_path@),
            r is Err ==> final(self).machine_scope() == old(self).machine_scope(),
            final(self).user_scope() == old(self).user_scope(),
            final(self).effects() == old(self).effects().push(Effect::WriteSystem(new_path@, r is Ok)),
    ;
}

/// How many entries of `s` are true.
pub open spec fn count_true(s: Seq<bool>) -> nat
    decreases s.len(),
{
    if s.len() == 0 {
        0
    } else {
        count_true(s.drop_last()) + if s.last() {
            1nat
        } else {
            0nat
        }
    }
}

/// How many probes must pass for the environment to count as healthy.
pub const HEALTH_THRESHOLD: usize = 2;

/// Whether enough probes passed.
pub fn probes_pass(results: &Vec<bool>) -> (r: bool)
    ensures
        r == (count_true(results@) >= HEALTH_THRESHOLD),
{
    let mut passed: usize = 0;
    let mut i: usize = 0;
    while i < results.len()
        invariant
            i <= results@.len(),
            passed == count_true(results@.take(i as int)),
            passed <= i,
        decreases results@.len() - i,
    {
        proof {
            assert(results@.take(i + 1).drop_last() =~= results@.take(i as int));
        }
        if results[i] {
            passed = passed + 1;
        }
        i = i + 1;
    }
    proof {
        assert(results@.take(results@.len() as int) =~= results@);
    }
    passed >= HEALTH_THRESHOLD
}

/// An in-memory system: both scopes, the side files written, counters of
/// the calls made, and switches that make operations fail.
pub struct MockSystem {
    /// The user-scope value; `None` when absent.
    pub user_path: Option<String>,
    /// The machine-scope value; `None` when absent.
    pub system_path: Option<String>,
    /// Side files written, as (path, content), in order.
    pub files: Vec<(String, String)>,
    /// Directories that exist.
    pub existing: Vec<String>,
    /// The result of each health probe.
    pub probe_results: Vec<bool>,
    /// Successful user-scope writes.
    pub user_writes: usize,
    /// Successful machine-scope writes.
    pub system_writes: usize,
    /// Broadcasts sent.
    pub broadcasts: usize,
    /// Settle waits.
    pub settles: usize,
    /// Health checks run.
    pub health_checks: usize,
    /// Side-file writes attempted.
    pub file_write_attempts: usize,
    /// How many user-scope writes may succeed; `None` for no limit.
    pub user_write_limit: Option<usize>,
    /// Whether side-file writes fail.
    pub fail_file_writes: bool,
    /// Whether machine-scope writes fail.
    pub fail_system_writes: bool,
    /// The operations with an effect, in order.
    pub effects: Ghost<Seq<Effect>>,
}

fn bump(n: usize) -> (r: usize)
    ensures
        n < usize::MAX ==> r == n + 1,
        n == usize::MAX ==> r == n,
{
    if n < usize::MAX {
        n + 1
    } else {
        n
    }
}

impl MockSystem {
    /// An empty system: no scopes, no files, all probes passing.
    pub fn new() -> (r: MockSystem)
        ensures
            r.user_path is None,
            r.system_path is None,
            r.files@.len() == 0,
            r.existing@.len() == 0,
            r.probe_results@ == seq![true, true, true],
            r.user_writes == 0,
            r.system_writes == 0,
            r.broadcasts == 0,
            r.settles == 0,
            r.health_checks == 0,
            r.file_write_attempts == 0,
            r.user_write_limit is None,
            !r.fail_file_writes,
            !r.fail_system_writes,
            r.effects@ == Seq::<Effect>::empty(),
    {
        let mut probes: Vec<bool> = Vec::new();
        probes.push(true);
        probes.push(true);
        probes.push(true);
        assert(probes@ =~= seq![true, true, true]);
        MockSystem {
            user_path: None,
            system_path: None,
            files: Vec::new(),
            existing: Vec::new(),
            probe_results: probes,
            user_writes: 0,
            system_writes: 0,
            broadcasts: 0,
            settles: 0,
            health_checks: 0,
            file_write_attempts: 0,
            user_write_limit: None,
            fail_file_writes: false,
            fail_system_writes: false,
            effects: Ghost(Seq::empty()),
        }
    }

    /// A new system with one registry value set: `Path` is the user scope,
    /// `SystemPath` the machine scope; other names are ignored.
    pub fn with_registry(key: &str, value: &str) -> (r: MockSystem)
        ensures
            opt_view(r.user_path) == (if key@ == "Path"@ {
                Some(value@)
            } else {
                None::<Seq<char>>
            }),
            opt_view(r.system_path) == (if key@ == "SystemPath"@ {
                Some(value@)
            } else {
                None::<Seq<char>>
            }),
            r.files@.len() == 0,
            r.existing@.len() == 0,
            r.probe_results@ == seq![true, true, true],
            r.user_writes == 0,
            r.system_writes == 0,
            r.broadcasts == 0,
            r.settles == 0,
            r.health_checks == 0,
            r.file_write_attempts == 0,
            r.user_write_limit is None,
            !r.fail_file_writes,
            !r.fail_system_writes,
            r.effects@ == Seq::<Effect>::empty(),
    {
        let mut r = MockSystem::new();
        let k = key.to_owned();
        if k == "Path".to_owned() {
            r.user_path = Some(value.to_owned());
        } else if k == "SystemPath".to_owned() {
            r.system_path = Some(value.to_owned());
        }
        proof {
            reveal_strlit("Path");
            reveal_strlit("SystemPath");
            assert("Path"@ != "SystemPath"@) by {
                assert("Path"@.len() != "SystemPath"@.len());
            }
        }
        r
    }
}

impl SystemOps for MockSystem {
    open spec fn user_scope(&self) -> Option<Seq<char>> {
        opt_view(self.user_path)
    }

    open spec fn machine_scope(&self) -> Option<Seq<char>> {
        opt_view(self.system_path)
    }

    open spec fn effects(&self) -> Seq<Effect> {
        self.effects@
    }

    fn read_user_path_registry(&self) -> (r: Result<String, SysError>) {
        match &self.user_path {
            Some(s) => Ok(s.clone()),
            None => Err(SysError::new("Path not found in mock registry")),
        }
    }

    fn write_user_path_registry(&mut self, new_path: &str) -> (r: Result<(), SysError>) {
        if let Some(limit) = self.user_write_limit {
            if self.user_writes >= limit {
                self.effects = Ghost(self.effects@.push(Effect::WriteUser(new_path@, false)));
                return Err(SysError::new("mock registry refused the write"));
            }
        }
        self.user_path = Some(new_path.to_owned());
        self.user_writes = bump(self.user_writes);
        self.effects = Ghost(self.effects@.push(Effect::WriteUser(new_path@, true)));
        Ok(())
    }

    fn broadcast_environment_change(&mut self) -> (r: Result<(), SysError>) {
        self.broadcasts = bump(self.broadcasts);
        self.effects = Ghost(self.effects@.push(Effect::Broadcast));
        Ok(())
    }

    fn wait_for_settle(&mut self) {
        self.settles = bump(self.settles);
        self.effects = Ghost(self.effects@.push(Effect::Settle));
    }

    fn path_exists(&self, path: &str) -> bool {
        let p = path.to_owned();
        crate::minimal::contains_string(&self.existing, &p)
    }

    fn write_backup_file(&mut self, path: &str, content: &str) -> (r: Result<(), SysError>) {
        self.file_write_attempts = bump(self.file_write_attempts);
        self.effects = Ghost(self.effects@.push(Effect::SideFile(path@, content@)));
        if self.fail_file_writes {
            return Err(SysError::new("mock file system refused the write"));
        }
        self.files.push((path.to_owned(), content.to_owned()));
        Ok(())
    }

    fn verify_environment_health(&mut self) -> (r: bool) {
        self.health_checks = bump(self.health_checks);
        let passed = probes_pass(&self.probe_results);
        self.effects = Ghost(self.effects@.push(Effect::Probe(passed)));
        passed
    }

    fn read_system_path_registry(&self) -> (r: Result<String, SysError>) {
        match &self.system_path {
            Some(s) => Ok(s.clone()),
            None => Err(SysError::new("SystemPath not found in mock registry")),
        }
    }

    fn write_system_path_registry(&mut self, new_path: &str) -> (r: Result<(), SysError>) {
        if self.fail_system_writes {
            self.effects = Ghost(self.effects@.push(Effect::WriteSystem(new_path@, false)));
            return Err(SysError::new("mock registry refused the machine-scope write"));
        }
        self.system_path = Some(new_path.to_owned());
        self.system_writes = bump(self.system_writes);
        self.effects = Ghost(self.effects@.push(Effect::WriteSystem(new_path@, true)));
        Ok(())
    }
}

} // verus!
