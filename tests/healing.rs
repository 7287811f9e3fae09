use wanderlust::{
    apply_path, artifact_paths, clean_system_path, heal_path, probes_pass, run_healing, ApplyError,
    ApplyState, ArtifactPaths, Candidate, CandidateMap, DirListing, MockSystem, SystemOps,
};

fn map_of(entries: &[(&str, &str)]) -> CandidateMap {
    let mut map = CandidateMap::new();
    for (cmd, dir) in entries {
        map.add(cmd, Candidate::new(dir, "test"));
    }
    map
}

fn system(user: Option<&str>, machine: Option<&str>) -> MockSystem {
    let mut s = MockSystem::new();
    s.user_path = user.map(|v| v.to_string());
    s.system_path = machine.map(|v| v.to_string());
    s
}

fn paths() -> ArtifactPaths {
    ArtifactPaths {
        backup: Some("backup.reg".to_string()),
        mirror: Some(".wanderlust_posix".to_string()),
    }
}

#[test]
fn empty_candidates_and_empty_user_scope() {
    let map = CandidateMap::new();
    let mut sys = system(None, Some(r"C:\Windows"));
    let rep = run_healing(&map, &mut sys, true, &paths()).ok().unwrap();
    assert_eq!(rep.user_after, "");
    assert_eq!(rep.user_before, "");
    assert!(rep.diff.adding.is_empty());
    assert!(rep.diff.removing.is_empty());
    assert!(!rep.applied);
}

#[test]
fn candidate_covered_by_machine_scope_is_not_added() {
    let map = map_of(&[("tool", r"c:\TOOLS")]);
    let mut sys = system(Some(""), Some(r"C:\Tools"));
    let rep = run_healing(&map, &mut sys, false, &paths()).ok().unwrap();
    assert_eq!(rep.user_after, "");
    assert!(rep.diff.adding.is_empty());
    assert_eq!(sys.user_path.as_deref(), Some(""));
}

#[test]
fn stale_entry_is_removed_by_a_run() {
    let map = map_of(&[("cargo", r"C:\Users\me\.cargo\bin")]);
    let mut sys = system(Some(r"C:\Old\Bin"), Some(r"C:\Windows"));
    let rep = run_healing(&map, &mut sys, true, &paths()).ok().unwrap();
    assert_eq!(rep.diff.removing, vec![r"C:\Old\Bin".to_string()]);
    assert_eq!(rep.diff.adding, vec![r"C:\Users\me\.cargo\bin".to_string()]);
}

#[test]
fn duplicate_candidates_give_one_entry() {
    let map = map_of(&[
        ("cargo", r"C:\Users\me\.cargo\bin"),
        ("rustup", r"c:\users\me\.cargo\bin"),
    ]);
    let mut sys = system(Some(""), Some(r"C:\Windows"));
    let rep = run_healing(&map, &mut sys, false, &paths()).ok().unwrap();
    assert_eq!(rep.user_after, r"C:\Users\me\.cargo\bin");
    assert_eq!(sys.user_path.as_deref(), Some(r"C:\Users\me\.cargo\bin"));
}

#[test]
fn failed_probes_roll_back_to_exact_prior_value() {
    let prior = r"C:\Users\Me\Tool;;c:\users\me\tool;C:\Other;";
    let mut sys = system(Some(prior), Some(r"C:\Windows"));
    sys.probe_results = vec![true, false, false];
    let r = apply_path(&mut sys, r"C:\New", Some("backup.reg"));
    match r {
        Err(e) => {
            assert!(matches!(e, ApplyError::RolledBack));
            assert!(!e.needs_manual_recovery());
        },
        Ok(()) => panic!("expected a rollback"),
    }
    assert_eq!(sys.user_path.as_deref(), Some(prior));
    assert_eq!(sys.user_writes, 2);
    assert_eq!(sys.health_checks, 1);
}

#[test]
fn run_with_failing_probes_reports_rolled_back() {
    let map = map_of(&[("cargo", r"C:\Users\me\.cargo\bin")]);
    let mut sys = system(Some(r"C:\Old"), Some(r"C:\Windows"));
    sys.probe_results = vec![false, true, false];
    let r = run_healing(&map, &mut sys, false, &paths());
    assert!(matches!(r, Err(ApplyError::RolledBack)));
    assert_eq!(sys.user_path.as_deref(), Some(r"C:\Old"));
    assert!(sys.files.iter().all(|(p, _)| p != ".wanderlust_posix"));
}

#[test]
fn failed_backup_does_not_stop_the_transaction() {
    let mut sys = system(Some(r"C:\Old"), Some(r"C:\Windows"));
    sys.fail_file_writes = true;
    let r = apply_path(&mut sys, r"C:\New", Some("backup.reg"));
    assert!(r.is_ok());
    assert_eq!(sys.file_write_attempts, 1);
    assert!(sys.files.is_empty());
    assert_eq!(sys.user_path.as_deref(), Some(r"C:\New"));
    assert_eq!(sys.broadcasts, 2);
    assert_eq!(sys.settles, 1);
    assert_eq!(sys.health_checks, 1);
}

#[test]
fn backup_record_holds_prior_value() {
    let mut sys = system(Some(r"C:\Old"), None);
    apply_path(&mut sys, r"C:\New", Some("backup.reg")).ok().unwrap();
    assert_eq!(sys.files.len(), 1);
    assert_eq!(sys.files[0].0, "backup.reg");
    assert!(sys.files[0].1.contains(r#""Path"="C:\\Old""#));
}

#[test]
fn absent_prior_value_rolls_back_to_empty() {
    let mut sys = system(None, None);
    sys.probe_results = vec![false, false, false];
    let r = apply_path(&mut sys, r"C:\New", None);
    assert!(matches!(r, Err(ApplyError::RolledBack)));
    assert_eq!(sys.user_path.as_deref(), Some(""));
    assert_eq!(sys.file_write_attempts, 0);
}

#[test]
fn write_failure_aborts_before_broadcast() {
    let mut sys = system(Some(r"C:\Old"), None);
    sys.user_write_limit = Some(0);
    let r = apply_path(&mut sys, r"C:\New", None);
    assert!(matches!(r, Err(ApplyError::WriteFailed(_))));
    assert_eq!(sys.user_path.as_deref(), Some(r"C:\Old"));
    assert_eq!(sys.broadcasts, 0);
    assert_eq!(sys.health_checks, 0);
}

#[test]
fn failed_rollback_is_unrecoverable() {
    let mut sys = system(Some(r"C:\Old"), None);
    sys.user_write_limit = Some(1);
    sys.probe_results = vec![true, false, false];
    let r = apply_path(&mut sys, r"C:\New", None);
    match r {
        Err(e) => {
            assert!(matches!(e, ApplyError::RollbackFailed(_)));
            assert!(e.needs_manual_recovery());
        },
        Ok(()) => panic!("expected a failed rollback"),
    }
    assert_eq!(sys.user_path.as_deref(), Some(r"C:\New"));
}

#[test]
fn dry_run_writes_nothing() {
    let map = map_of(&[("cargo", r"C:\Users\me\.cargo\bin"), ("tool", r"C:\T")]);
    let mut sys = system(Some(r"C:\Old;C:\Old"), Some(r"C:\Windows;c:\windows"));
    let rep = heal_path(&mut sys, &Vec::new(), true).ok().unwrap();
    assert!(!rep.applied);
    let rep2 = run_healing(&map, &mut sys, true, &paths()).ok().unwrap();
    assert_eq!(rep2.user_after, r"C:\T;C:\Users\me\.cargo\bin");
    assert_eq!(rep2.machine.deduplicated_count, 1);
    assert_eq!(sys.user_writes, 0);
    assert_eq!(sys.system_writes, 0);
    assert_eq!(sys.broadcasts, 0);
    assert_eq!(sys.settles, 0);
    assert_eq!(sys.health_checks, 0);
    assert_eq!(sys.file_write_attempts, 0);
    assert_eq!(sys.user_path.as_deref(), Some(r"C:\Old;C:\Old"));
    assert_eq!(sys.system_path.as_deref(), Some(r"C:\Windows;c:\windows"));
}

#[test]
fn healing_a_healed_system_changes_nothing() {
    let map = map_of(&[("cargo", r"C:\Users\me\.cargo\bin"), ("py", r"C:\Py")]);
    let mut sys = system(Some(r"C:\Old"), Some(r"C:\Windows"));
    let first = run_healing(&map, &mut sys, false, &paths()).ok().unwrap();
    let second = run_healing(&map, &mut sys, false, &paths()).ok().unwrap();
    assert_eq!(second.user_before, first.user_after);
    assert_eq!(second.user_after, first.user_after);
    assert!(second.diff.adding.is_empty());
    assert!(second.diff.removing.is_empty());
    assert_eq!(sys.user_path.as_deref(), Some(first.user_after.as_str()));
}

#[test]
fn mirror_is_written_after_success() {
    let map = map_of(&[("tool", r"D:\Tools")]);
    let mut sys = system(Some(""), Some(r"C:\Windows"));
    run_healing(&map, &mut sys, false, &paths()).ok().unwrap();
    assert_eq!(sys.files.len(), 2);
    assert_eq!(sys.files[0].0, "backup.reg");
    assert_eq!(sys.files[1], (".wanderlust_posix".to_string(), "/c/Windows:/d/Tools\n".to_string()));
}

#[test]
fn machine_scope_cleanup_writes_only_when_needed() {
    let mut sys = system(None, Some(r"C:\A;c:\a;D:\B"));
    let dry = clean_system_path(&mut sys, true).ok().unwrap();
    assert!(!dry.written);
    assert_eq!(sys.system_writes, 0);
    let done = clean_system_path(&mut sys, false).ok().unwrap();
    assert!(done.written);
    assert_eq!(sys.system_path.as_deref(), Some(r"C:\A;D:\B"));
    let again = clean_system_path(&mut sys, false).ok().unwrap();
    assert!(!again.written);
    assert_eq!(sys.system_writes, 1);
}

#[test]
fn unreadable_machine_scope_is_skipped() {
    let mut sys = system(Some(""), None);
    assert!(clean_system_path(&mut sys, false).is_err());
    let listings = vec![DirListing {
        dir: r"C:\Users\me\bin".to_string(),
        source: "test".to_string(),
        files: vec!["tool.exe".to_string()],
    }];
    let rep = heal_path(&mut sys, &listings, false).ok().unwrap();
    assert_eq!(rep.user_after, r"C:\Users\me\bin");
    assert_eq!(sys.user_path.as_deref(), Some(r"C:\Users\me\bin"));
}

#[test]
fn unwritable_machine_scope_does_not_stop_healing() {
    let mut sys = system(Some(""), Some(r"C:\Tools;c:\tools"));
    sys.fail_system_writes = true;
    let listings = vec![DirListing {
        dir: r"C:\TOOLS".to_string(),
        source: "test".to_string(),
        files: vec!["t.exe".to_string()],
    }];
    let rep = heal_path(&mut sys, &listings, false).ok().unwrap();
    assert_eq!(rep.user_after, "");
    assert_eq!(sys.system_path.as_deref(), Some(r"C:\Tools;c:\tools"));
}

#[test]
fn heal_path_cleans_machine_scope_first() {
    let mut sys = system(Some(r"C:\X"), Some(r"C:\Tools;c:\TOOLS;C:\Windows"));
    let listings = vec![
        DirListing {
            dir: r"c:\tools".to_string(),
            source: "existing_path".to_string(),
            files: vec!["a.exe".to_string()],
        },
        DirListing {
            dir: r"C:\Users\me\.cargo\bin".to_string(),
            source: "cargo".to_string(),
            files: vec!["cargo.exe".to_string(), "README".to_string()],
        },
    ];
    let rep = heal_path(&mut sys, &listings, false).ok().unwrap();
    assert_eq!(sys.system_path.as_deref(), Some(r"C:\Tools;C:\Windows"));
    assert_eq!(rep.user_after, r"C:\Users\me\.cargo\bin");
    assert_eq!(rep.diff.removing, vec![r"C:\X".to_string()]);
    assert!(rep.applied);
}

#[test]
fn probe_majority_threshold() {
    assert!(probes_pass(&vec![true, true, false]));
    assert!(probes_pass(&vec![true, true, true]));
    assert!(!probes_pass(&vec![true, false, false]));
    assert!(!probes_pass(&vec![false, false, false]));
    assert!(!probes_pass(&Vec::new()));
}

#[test]
fn mock_reads_and_writes_scopes() {
    let mut sys = MockSystem::with_registry("Path", r"C:\A");
    assert_eq!(sys.read_user_path_registry().ok(), Some(r"C:\A".to_string()));
    assert!(sys.read_system_path_registry().is_err());
    sys.write_system_path_registry(r"C:\S").ok().unwrap();
    assert_eq!(sys.read_system_path_registry().ok(), Some(r"C:\S".to_string()));
    let other = MockSystem::with_registry("SystemPath", r"C:\W");
    assert_eq!(other.system_path.as_deref(), Some(r"C:\W"));
    assert!(other.user_path.is_none());
    let ignored = MockSystem::with_registry("Other", "x");
    assert!(ignored.user_path.is_none() && ignored.system_path.is_none());
    let mut fs = MockSystem::new();
    fs.existing.push(r"C:\Here".to_string());
    assert!(fs.path_exists(r"C:\Here"));
    assert!(!fs.path_exists(r"C:\There"));
    assert!(fs.verify_environment_health());
}

#[test]
fn artifact_locations_are_fixed_names() {
    let p = artifact_paths();
    if let Some(b) = p.backup {
        assert!(b.ends_with("backup.reg"));
        assert!(b.contains("wanderlust"));
    }
    if let Some(m) = p.mirror {
        assert!(m.ends_with(".wanderlust_posix"));
    }
}

#[test]
fn apply_states_move_forward_once() {
    let s = ApplyState::Idle;
    assert!(!s.terminal());
    let s = s.advance(false);
    assert_eq!(s, ApplyState::BackedUp);
    assert_eq!(s.advance(false), ApplyState::Aborted);
    let s = s.advance(true);
    assert_eq!(s, ApplyState::Written);
    let s = s.advance(false);
    assert_eq!(s, ApplyState::Broadcast);
    assert_eq!(s.advance(true), ApplyState::Committed);
    let s = s.advance(false);
    assert_eq!(s, ApplyState::RollingBack);
    assert_eq!(s.advance(true), ApplyState::RolledBack);
    assert_eq!(s.advance(false), ApplyState::Unrecoverable);
    for t in [ApplyState::Committed, ApplyState::Aborted, ApplyState::RolledBack, ApplyState::Unrecoverable] {
        assert!(t.terminal());
    }
}

#[test]
fn run_flags_value_without_user_directories() {
    let map = map_of(&[("git", r"C:\Program Files\Git\cmd")]);
    let mut sys = system(Some(""), Some(r"C:\Windows"));
    let rep = run_healing(&map, &mut sys, true, &paths()).ok().unwrap();
    assert!(rep.flagged);
    let map = map_of(&[("cargo", r"C:\Users\me\.cargo\bin"), ("git", r"C:\Program Files\Git\cmd")]);
    let rep = run_healing(&map, &mut sys, true, &paths()).ok().unwrap();
    assert!(!rep.flagged);
    let rep = run_healing(&CandidateMap::new(), &mut sys, true, &paths()).ok().unwrap();
    assert!(!rep.flagged);
}

#[test]
fn everything_covered_by_machine_scope_is_flagged_but_valid() {
    let map = map_of(&[("tool", r"C:\Tools")]);
    let mut sys = system(Some(r"C:\Tools"), Some(r"c:\tools"));
    let rep = run_healing(&map, &mut sys, false, &paths()).ok().unwrap();
    assert_eq!(rep.user_after, "");
    assert!(rep.flagged);
    assert!(rep.applied);
    assert_eq!(sys.user_path.as_deref(), Some(""));
}

#[test]
fn dry_run_and_apply_compute_the_same_value() {
    let map = map_of(&[("cargo", r"C:\Users\me\.cargo\bin"), ("py", r"C:\Py"), ("x", r"c:\py")]);
    let mut dry_sys = system(Some(r"C:\Old;C:\Py"), Some(r"C:\Windows"));
    let mut real_sys = system(Some(r"C:\Old;C:\Py"), Some(r"C:\Windows"));
    let dry = run_healing(&map, &mut dry_sys, true, &paths()).ok().unwrap();
    let real = run_healing(&map, &mut real_sys, false, &paths()).ok().unwrap();
    assert_eq!(dry.user_after, real.user_after);
    assert_eq!(dry.diff.adding, real.diff.adding);
    assert_eq!(dry.diff.removing, real.diff.removing);
    assert_eq!(real.diff.removing, vec![r"C:\Old".to_string()]);
    assert_eq!(real_sys.user_path.as_deref(), Some(r"C:\Py;C:\Users\me\.cargo\bin"));
}

#[test]
fn side_file_locations_from_directories() {
    let p = wanderlust::artifact_paths_in(Some("/data"), Some("/home/me"));
    let expect_backup = std::path::Path::new("/data").join("wanderlust").join("backup.reg");
    let expect_mirror = std::path::Path::new("/home/me").join(".wanderlust_posix");
    assert_eq!(p.backup.as_deref(), Some(expect_backup.to_str().unwrap()));
    assert_eq!(p.mirror.as_deref(), Some(expect_mirror.to_str().unwrap()));
    let none = wanderlust::artifact_paths_in(None, None);
    assert!(none.backup.is_none());
    assert!(none.mirror.is_none());
    let half = wanderlust::artifact_paths_in(None, Some("/h"));
    assert!(half.backup.is_none());
    assert!(half.mirror.is_some());
}

#[test]
fn unwritable_machine_scope_reports_error_after_attempt() {
    let mut sys = system(None, Some(r"C:\A;c:\a"));
    sys.fail_system_writes = true;
    assert!(clean_system_path(&mut sys, false).is_err());
    assert_eq!(sys.system_path.as_deref(), Some(r"C:\A;c:\a"));
    sys.fail_system_writes = false;
    assert!(clean_system_path(&mut sys, false).ok().unwrap().written);
    assert_eq!(sys.system_writes, 1);
}

#[test]
fn committed_apply_makes_one_write_two_broadcasts_one_check() {
    let mut sys = system(Some(r"C:\Old"), None);
    apply_path(&mut sys, r"C:\New", None).ok().unwrap();
    assert_eq!(sys.user_writes, 1);
    assert_eq!(sys.broadcasts, 2);
    assert_eq!(sys.settles, 1);
    assert_eq!(sys.health_checks, 1);
}

#[test]
fn rollback_is_broadcast() {
    let mut sys = system(Some(r"C:\Old"), None);
    sys.probe_results = vec![false, false, true];
    assert!(matches!(apply_path(&mut sys, r"C:\New", None), Err(ApplyError::RolledBack)));
    assert_eq!(sys.broadcasts, 3);
    assert_eq!(sys.user_writes, 2);
}
