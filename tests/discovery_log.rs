use wanderlust::{
    add_dir_candidates, assert_invariant, clear_invariant_log, command_name, contract_test,
    discover_candidates, Candidate, CandidateMap, DirListing, InvariantLog,
};

fn listing(dir: &str, source: &str, files: &[&str]) -> DirListing {
    DirListing {
        dir: dir.to_string(),
        source: source.to_string(),
        files: files.iter().map(|f| f.to_string()).collect(),
    }
}

#[test]
fn command_names_of_programs() {
    assert_eq!(command_name("node.exe"), Some("node".to_string()));
    assert_eq!(command_name("Cargo.EXE"), Some("cargo".to_string()));
    assert_eq!(command_name("npm.cmd"), Some("npm".to_string()));
    assert_eq!(command_name("build.Bat"), Some("build".to_string()));
    assert_eq!(command_name("more.com"), Some("more".to_string()));
    assert_eq!(command_name("archive.tar.exe"), Some("archive.tar".to_string()));
}

#[test]
fn files_that_are_not_programs() {
    assert_eq!(command_name("README.md"), None);
    assert_eq!(command_name("LICENSE"), None);
    assert_eq!(command_name(".exe"), None);
    assert_eq!(command_name(".."), None);
    assert_eq!(command_name("tool."), None);
    assert_eq!(command_name("tool.exe.bak"), None);
    assert_eq!(command_name(""), None);
}

#[test]
fn listing_adds_one_candidate_per_program() {
    let mut map = CandidateMap::new();
    add_dir_candidates(&mut map, r"C:\bin", &vec!["a.exe".to_string(), "b.txt".to_string(), "c.cmd".to_string()], "test");
    assert_eq!(map.len(), 2);
    assert_eq!(map.directories(), vec![r"C:\bin".to_string(), r"C:\bin".to_string()]);
}

#[test]
fn same_command_in_two_directories() {
    let listings = vec![
        listing(r"C:\Users\me\.cargo\bin", "cargo", &["cargo.exe", "rustc.exe"]),
        listing(r"C:\Rust\bin", "registry", &["CARGO.EXE"]),
        listing(r"C:\Empty", "local_bin", &[]),
    ];
    let map = discover_candidates(&listings);
    assert_eq!(map.len(), 2);
    assert_eq!(
        map.directories(),
        vec![
            r"C:\Users\me\.cargo\bin".to_string(),
            r"C:\Rust\bin".to_string(),
            r"C:\Users\me\.cargo\bin".to_string(),
        ]
    );
}

#[test]
fn map_add_groups_by_command() {
    let mut map = CandidateMap::new();
    map.add("node", Candidate::new(r"C:\a", "x"));
    map.add("npm", Candidate::new(r"C:\b", "x"));
    map.add("node", Candidate::new(r"C:\c", "y"));
    assert_eq!(map.len(), 2);
    assert_eq!(map.directories(), vec![r"C:\a".to_string(), r"C:\c".to_string(), r"C:\b".to_string()]);
}

#[test]
fn invariant_that_holds_is_recorded() {
    let mut log = InvariantLog::new();
    assert!(assert_invariant(&mut log, true, "no duplicates", Some("Cleaner")).is_ok());
    assert!(assert_invariant(&mut log, true, "no duplicates", None).is_ok());
    assert!(log.is_checked("no duplicates"));
    assert_eq!(log.len(), 1);
}

#[test]
fn invariant_that_fails_is_reported() {
    let mut log = InvariantLog::new();
    let e = assert_invariant(&mut log, false, "user scope is minimal", Some("Cleaner")).err().unwrap();
    assert_eq!(e, "CRITICAL INVARIANT VIOLATION [Cleaner]: user scope is minimal");
    let g = assert_invariant(&mut log, false, "x", None).err().unwrap();
    assert_eq!(g, "CRITICAL INVARIANT VIOLATION [General]: x");
    assert!(!log.is_checked("user scope is minimal"));
    assert_eq!(log.len(), 0);
}

#[test]
fn contract_test_lists_unchecked_invariants() {
    let mut log = InvariantLog::new();
    assert_invariant(&mut log, true, "a", None).ok().unwrap();
    assert_invariant(&mut log, true, "c", None).ok().unwrap();
    assert!(contract_test(&log, "ctx", &["a", "c"]).is_ok());
    assert!(contract_test(&log, "ctx", &[]).is_ok());
    let f = contract_test(&log, "ctx", &["a", "b", "c", "d"]).err().unwrap();
    assert_eq!(f.context, "ctx");
    assert_eq!(f.missing, vec!["b".to_string(), "d".to_string()]);
}

#[test]
fn clearing_the_log_forgets_everything() {
    let mut log = InvariantLog::new();
    assert_invariant(&mut log, true, "a", None).ok().unwrap();
    clear_invariant_log(&mut log);
    assert!(!log.is_checked("a"));
    assert_eq!(log.len(), 0);
    assert!(contract_test(&log, "after clear", &["a"]).is_err());
}

#[test]
fn fill_order_does_not_change_the_map() {
    let mut a = CandidateMap::new();
    a.add("zip", Candidate::new(r"C:\Z", "x"));
    a.add("awk", Candidate::new(r"c:\tools", "x"));
    a.add("sed", Candidate::new(r"C:\Tools", "x"));
    let mut b = CandidateMap::new();
    b.add("sed", Candidate::new(r"C:\Tools", "x"));
    b.add("awk", Candidate::new(r"c:\tools", "x"));
    b.add("zip", Candidate::new(r"C:\Z", "x"));
    assert_eq!(a.directories(), b.directories());
    assert_eq!(a.directories(), vec![r"c:\tools".to_string(), r"C:\Tools".to_string(), r"C:\Z".to_string()]);
    assert_eq!(wanderlust::build_minimal_path(&a, ""), wanderlust::build_minimal_path(&b, ""));
    assert_eq!(wanderlust::build_minimal_path(&a, ""), r"c:\tools;C:\Z");
}
