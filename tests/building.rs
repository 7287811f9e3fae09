use wanderlust::{
    build_minimal_path, compute_diff, dedup_scope, join_strings, posix_mirror,
    reg_backup_content, split_entries, win_to_posix, Candidate, CandidateMap,
};

fn map_of(entries: &[(&str, &str)]) -> CandidateMap {
    let mut map = CandidateMap::new();
    for (cmd, dir) in entries {
        map.add(cmd, Candidate::new(dir, "test"));
    }
    map
}

fn entries(v: &str) -> Vec<String> {
    split_entries(v)
}

#[test]
fn empty_map_builds_empty_value() {
    let map = CandidateMap::new();
    assert_eq!(build_minimal_path(&map, ""), "");
    assert_eq!(build_minimal_path(&map, r"C:\Windows;C:\Tools"), "");
}

#[test]
fn machine_scope_entry_excludes_candidate_of_any_casing() {
    let map = map_of(&[("tool", r"c:\TOOLS"), ("node", r"C:\Users\me\node")]);
    let built = build_minimal_path(&map, r"C:\Windows\system32;C:\Tools");
    assert_eq!(built, r"C:\Users\me\node");
}

#[test]
fn same_folded_directory_collapses_to_first_seen() {
    let map = map_of(&[
        ("cargo", r"C:\Users\me\.cargo\bin"),
        ("rustc", r"c:\users\me\.cargo\bin"),
    ]);
    let built = build_minimal_path(&map, "");
    assert_eq!(built, r"C:\Users\me\.cargo\bin");
    assert_eq!(entries(&built).len(), 1);
}

#[test]
fn built_value_is_sorted_by_folded_form() {
    let map = map_of(&[("b", r"C:\b"), ("a", r"c:\A"), ("z", r"D:\z"), ("m", r"C:\M")]);
    assert_eq!(build_minimal_path(&map, ""), r"c:\A;C:\b;C:\M;D:\z");
}

#[test]
fn reserved_system_tree_is_left_out() {
    let map = map_of(&[
        ("cmd", r"C:\Windows\System32"),
        ("explorer", r"c:\WINDOWS"),
        ("git", r"C:\Program Files\Git\cmd"),
    ]);
    assert_eq!(build_minimal_path(&map, ""), r"C:\Program Files\Git\cmd");
}

#[test]
fn unusable_directories_are_left_out() {
    let map = map_of(&[("a", ""), ("b", r"C:\x;y"), ("c", r"C:\ok")]);
    assert_eq!(build_minimal_path(&map, ""), r"C:\ok");
}

#[test]
fn built_value_has_no_folded_duplicates() {
    let map = map_of(&[
        ("a", r"C:\One"),
        ("b", r"c:\one"),
        ("c", r"C:\ONE"),
        ("d", r"C:\Two"),
        ("e", r"c:\two"),
    ]);
    let built = build_minimal_path(&map, "");
    let parts = entries(&built);
    let mut folded: Vec<String> = parts.iter().map(|p| p.to_lowercase()).collect();
    let n = folded.len();
    folded.sort();
    folded.dedup();
    assert_eq!(folded.len(), n);
    assert_eq!(built, r"C:\One;C:\Two");
}

#[test]
fn built_value_shares_nothing_with_machine_scope() {
    let machine = r"C:\A;c:\b;;C:\C";
    let map = map_of(&[("a", r"c:\a"), ("b", r"C:\B"), ("d", r"C:\D"), ("c", r"C:\c")]);
    let built = build_minimal_path(&map, machine);
    assert_eq!(built, r"C:\D");
    for e in entries(&built) {
        for m in entries(machine) {
            assert_ne!(e.to_lowercase(), m.to_lowercase());
        }
    }
}

#[test]
fn building_twice_gives_identical_values() {
    let map = map_of(&[("x", r"C:\X"), ("y", r"c:\y"), ("x", r"C:\W")]);
    let first = build_minimal_path(&map, r"C:\Q");
    let second = build_minimal_path(&map, r"C:\Q");
    assert_eq!(first, second);
    let reordered = map_of(&[("y", r"c:\y"), ("x", r"C:\W"), ("x", r"C:\X")]);
    assert_eq!(build_minimal_path(&reordered, r"C:\Q"), first);
    assert_eq!(first, r"C:\W;C:\X;c:\y");
}

#[test]
fn diff_of_empty_values_is_empty() {
    let d = compute_diff("", "");
    assert!(d.adding.is_empty());
    assert!(d.removing.is_empty());
}

#[test]
fn stale_user_entry_is_marked_removing() {
    let d = compute_diff(r"C:\Old\Bin;C:\Keep", r"c:\keep;C:\New");
    assert_eq!(d.removing, vec![r"C:\Old\Bin".to_string()]);
    assert_eq!(d.adding, vec![r"C:\New".to_string()]);
}

#[test]
fn diff_of_value_with_itself_is_empty() {
    let v = r"C:\A;C:\B;c:\a";
    let d = compute_diff(v, v);
    assert!(d.adding.is_empty());
    assert!(d.removing.is_empty());
}

#[test]
fn split_drops_empty_segments() {
    assert_eq!(split_entries(r";C:\A;;C:\B;"), vec![r"C:\A".to_string(), r"C:\B".to_string()]);
    assert!(split_entries("").is_empty());
    assert!(split_entries(";;;").is_empty());
}

#[test]
fn join_uses_separator() {
    let parts = vec!["a".to_string(), "b".to_string(), "c".to_string()];
    assert_eq!(join_strings(&parts, ';'), "a;b;c");
    assert_eq!(join_strings(&Vec::new(), ';'), "");
}

#[test]
fn folded_comparison_ignores_case() {
    let d = compute_diff(r"C:\Users\ME\.Cargo", r"c:\users\me\.cargo");
    assert!(d.adding.is_empty());
    assert!(d.removing.is_empty());
    assert_eq!(dedup_scope(r"C:\Users\ME;c:\USERS\me").value, r"C:\Users\ME");
}

#[test]
fn dedup_keeps_first_casing_and_order() {
    let c = dedup_scope(r"C:\A;D:\B;c:\a;;d:\b;E:\C");
    assert_eq!(c.value, r"C:\A;D:\B;E:\C");
    assert_eq!(c.raw_count, 5);
    assert_eq!(c.deduplicated_count, 3);
    assert!(c.changed());
}

#[test]
fn dedup_of_clean_value_changes_nothing() {
    let c = dedup_scope(r"C:\A;;D:\B");
    assert_eq!(c.value, r"C:\A;D:\B");
    assert_eq!(c.raw_count, 2);
    assert_eq!(c.deduplicated_count, 2);
    assert!(!c.changed());
}

#[test]
fn posix_form_of_drive_paths() {
    assert_eq!(win_to_posix(r"C:\Windows\system32"), "/c/Windows/system32");
    assert_eq!(win_to_posix(r"D:\Program Files\Git"), "/d/Program Files/Git");
    assert_eq!(win_to_posix(r"relative\dir"), "relative/dir");
    assert_eq!(win_to_posix("C:"), "/c");
}

#[test]
fn mirror_puts_machine_entries_first() {
    assert_eq!(posix_mirror(r"C:\Windows;", r"D:\Tools\bin;E:\x"), "/c/Windows:/d/Tools/bin:/e/x\n");
    assert_eq!(posix_mirror("", ""), "\n");
}

#[test]
fn backup_escapes_backslashes_and_quotes() {
    let text = reg_backup_content(r#"C:\a;C:\"b""#);
    assert_eq!(
        text,
        "Windows Registry Editor Version 5.00\n\n[HKEY_CURRENT_USER\\Environment]\n\"Path\"=\"C:\\\\a;C:\\\\\\\"b\\\"\"\n"
    );
}

#[test]
fn shared_entries_of_user_and_machine_scopes() {
    assert_eq!(
        wanderlust::shared_entries(r"C:\A;D:\x;c:\b", r"c:\a;C:\B;E:\y"),
        vec![r"C:\A".to_string(), r"c:\b".to_string()]
    );
    assert!(wanderlust::shared_entries("", r"C:\A").is_empty());
}

#[test]
fn unusual_build_detection() {
    let map = map_of(&[("a", r"C:\Users\me\bin")]);
    assert!(!wanderlust::looks_unusual(&map, r"C:\Users\me\bin"));
    assert!(wanderlust::looks_unusual(&map, ""));
    assert!(wanderlust::looks_unusual(&map, r"D:\tools"));
    assert!(!wanderlust::looks_unusual(&map, r"D:\tools;C:\x\AppData\Local\bin"));
    assert!(!wanderlust::looks_unusual(&CandidateMap::new(), ""));
}
