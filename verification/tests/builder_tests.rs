use lsai::DirectoryEntry;
use lsai::build_summary;
use lsai::make_entry;

fn file(name: &str, size: u64) -> DirectoryEntry {
    make_entry(name.to_string(), false, Some(size), None)
}

fn file_unsized(name: &str) -> DirectoryEntry {
    make_entry(name.to_string(), false, None, None)
}

fn dir(name: &str) -> DirectoryEntry {
    make_entry(name.to_string(), true, None, None)
}

fn hint_pairs(s: &lsai::DirSummary) -> Vec<(String, u32)> {
    s.language_hints.iter().map(|h| (h.ext.clone(), h.count)).collect()
}

fn top_pairs(s: &lsai::DirSummary) -> Vec<(String, u64)> {
    s.top_file_by_size.iter().map(|t| (t.name.clone(), t.bytes)).collect()
}

#[test]
fn mixed_project_scenario() {
    let entries = vec![
        file("README.md", 10),
        file("Cargo.toml", 5),
        file(".env", 0),
        dir(".git"),
    ];
    let s = build_summary("proj", &entries);
    assert_eq!(s.path, "proj".to_string());
    assert_eq!(s.counts.total, 4);
    assert_eq!(s.counts.files, 3);
    assert_eq!(s.counts.dirs, 1);
    assert_eq!(s.counts.hidden, 2);
    assert!(s.notable_files.has_readme);
    assert!(s.notable_files.has_rust);
    assert!(s.notable_files.has_git);
    assert!(!s.notable_files.has_license);
    assert!(!s.notable_files.has_dockerfile);
    assert!(!s.notable_files.has_ci);
    assert!(!s.notable_files.has_node);
    assert!(!s.notable_files.has_python);
    assert_eq!(s.suspicious_files, vec![".env".to_string()]);
    assert_eq!(
        hint_pairs(&s),
        vec![("md".to_string(), 1), ("toml".to_string(), 1)]
    );
    assert_eq!(
        top_pairs(&s),
        vec![
            ("README.md".to_string(), 10),
            ("Cargo.toml".to_string(), 5),
            (".env".to_string(), 0),
        ]
    );
}

#[test]
fn name_matching_both_rules_is_listed_twice() {
    let entries = vec![file("id_rsa_backup.log", 64)];
    let s = build_summary(".", &entries);
    assert_eq!(
        s.suspicious_files,
        vec!["id_rsa_backup.log".to_string(), "id_rsa_backup.log".to_string()]
    );
}

#[test]
fn inner_pem_is_no_pem_suffix() {
    // The secret-material rule wants a `.pem` suffix; a `.pem` in the middle
    // of the name does not count, so this name matches only the dumped-data
    // rule and is listed once.
    let entries = vec![file("secrets.env.pem.log", 64)];
    let s = build_summary(".", &entries);
    assert_eq!(s.suspicious_files, vec!["secrets.env.pem.log".to_string()]);
}

#[test]
fn empty_directory_scenario() {
    let entries: Vec<DirectoryEntry> = Vec::new();
    let s = build_summary("empty", &entries);
    assert_eq!(s.counts.total, 0);
    assert_eq!(s.counts.files, 0);
    assert_eq!(s.counts.dirs, 0);
    assert_eq!(s.counts.hidden, 0);
    assert!(!s.notable_files.has_git);
    assert!(!s.notable_files.has_readme);
    assert!(!s.notable_files.has_license);
    assert!(!s.notable_files.has_dockerfile);
    assert!(!s.notable_files.has_ci);
    assert!(!s.notable_files.has_rust);
    assert!(!s.notable_files.has_node);
    assert!(!s.notable_files.has_python);
    assert!(s.language_hints.is_empty());
    assert!(s.suspicious_files.is_empty());
    assert!(s.top_file_by_size.is_empty());
}

#[test]
fn builder_is_deterministic() {
    let entries = vec![
        file("README.md", 10),
        file("b.log", 7),
        dir("src"),
        file("a.LOG", 7),
        file_unsized("weird"),
    ];
    let first = build_summary("twice", &entries);
    let second = build_summary("twice", &entries);
    assert_eq!(first, second);
}

#[test]
fn counts_add_up() {
    let entries = vec![
        file("a.rs", 1),
        dir("src"),
        file(".hidden", 2),
        dir(".git"),
        file_unsized("b"),
    ];
    let s = build_summary(".", &entries);
    assert_eq!(s.counts.total, s.counts.files + s.counts.dirs);
    assert!(s.counts.hidden <= s.counts.total);
    assert_eq!(s.counts.hidden, 2);
}

#[test]
fn language_hints_sorted_and_merged_case_insensitively() {
    let entries = vec![
        file("z.TXT", 1),
        file("a.txt", 2),
        file("m.RS", 3),
        file("n.rs", 4),
        file_unsized("noext"),
        dir("sub.d"),
    ];
    let s = build_summary(".", &entries);
    assert_eq!(
        hint_pairs(&s),
        vec![("rs".to_string(), 2), ("txt".to_string(), 2)]
    );
    let sum: u32 = s.language_hints.iter().map(|h| h.count).sum();
    assert!(sum <= s.counts.files);
}

#[test]
fn empty_extension_is_its_own_hint_key() {
    let entries = vec![file("foo.", 1), file("bar.", 2), file("baz.c", 3)];
    let s = build_summary(".", &entries);
    assert_eq!(
        hint_pairs(&s),
        vec![("".to_string(), 2), ("c".to_string(), 1)]
    );
}

#[test]
fn top_list_keeps_at_most_five() {
    let entries = vec![
        file("f1", 10),
        file("f2", 30),
        file("f3", 20),
        file("f4", 70),
        file("f5", 50),
        file("f6", 60),
        file("f7", 40),
    ];
    let s = build_summary(".", &entries);
    assert_eq!(
        top_pairs(&s),
        vec![
            ("f4".to_string(), 70),
            ("f6".to_string(), 60),
            ("f5".to_string(), 50),
            ("f7".to_string(), 40),
            ("f2".to_string(), 30),
        ]
    );
}

#[test]
fn top_list_ties_keep_scan_order() {
    let entries = vec![file("a", 5), file("b", 5), file("c", 9), file("d", 5)];
    let s = build_summary(".", &entries);
    assert_eq!(
        top_pairs(&s),
        vec![
            ("c".to_string(), 9),
            ("a".to_string(), 5),
            ("b".to_string(), 5),
            ("d".to_string(), 5),
        ]
    );
}

#[test]
fn files_of_unknown_size_are_counted_but_not_ranked() {
    let entries = vec![file_unsized("mystery.bin"), file("known.bin", 3)];
    let s = build_summary(".", &entries);
    assert_eq!(s.counts.files, 2);
    assert_eq!(top_pairs(&s), vec![("known.bin".to_string(), 3)]);
    assert_eq!(hint_pairs(&s), vec![("bin".to_string(), 2)]);
}

#[test]
fn python_rule_wants_singular_requirement() {
    let with_singular = vec![file("requirement.txt", 1)];
    let s1 = build_summary(".", &with_singular);
    assert!(s1.notable_files.has_python);

    let with_plural = vec![file("requirements.txt", 1)];
    let s2 = build_summary(".", &with_plural);
    assert!(!s2.notable_files.has_python);

    let with_pyproject = vec![file("PyProject.TOML", 1)];
    let s3 = build_summary(".", &with_pyproject);
    assert!(s3.notable_files.has_python);
}

#[test]
fn readme_and_license_match_exact_or_dotted() {
    let entries = vec![file("README", 1), file("LICENSE.txt", 1)];
    let s = build_summary(".", &entries);
    assert!(s.notable_files.has_readme);
    assert!(s.notable_files.has_license);

    let near_misses = vec![file("readme2.md", 1), file("licenses", 1)];
    let s2 = build_summary(".", &near_misses);
    assert!(!s2.notable_files.has_readme);
    assert!(!s2.notable_files.has_license);
}

#[test]
fn marker_files_are_case_insensitive() {
    let entries = vec![
        file("DockerFile", 1),
        file("CARGO.toml", 1),
        file("Package.JSON", 1),
    ];
    let s = build_summary(".", &entries);
    assert!(s.notable_files.has_dockerfile);
    assert!(s.notable_files.has_rust);
    assert!(s.notable_files.has_node);
}

#[test]
fn git_and_ci_markers_are_directories_not_files() {
    let as_files = vec![file(".git", 1), file(".github", 1)];
    let s = build_summary(".", &as_files);
    assert!(!s.notable_files.has_git);
    assert!(!s.notable_files.has_ci);

    let as_dirs = vec![dir(".git"), dir(".github")];
    let s2 = build_summary(".", &as_dirs);
    assert!(s2.notable_files.has_git);
    assert!(s2.notable_files.has_ci);
}

#[test]
fn suspicious_list_keeps_scan_order() {
    let entries = vec![
        file("server.pem", 1),
        file("notes.txt", 1),
        file("old_id_rsa.bak", 1),
        file("dump.sql", 1),
        file("trace.log", 1),
        dir("id_rsa_dir"),
    ];
    let s = build_summary(".", &entries);
    assert_eq!(
        s.suspicious_files,
        vec![
            "server.pem".to_string(),
            "old_id_rsa.bak".to_string(),
            "dump.sql".to_string(),
            "trace.log".to_string(),
        ]
    );
}

#[test]
fn suspicious_env_must_match_exactly() {
    let entries = vec![file(".env", 0), file(".environment", 1), file("prod.env", 2)];
    let s = build_summary(".", &entries);
    assert_eq!(s.suspicious_files, vec![".env".to_string()]);
}

#[test]
fn non_ascii_names_pass_through_unchanged() {
    let e = make_entry("Résumé.PDF".to_string(), false, Some(2), None);
    assert_eq!(e.extension, Some("PDF".to_string()));
    assert!(!e.is_hidden);

    let entries = vec![e, file("über.log", 3)];
    let s = build_summary(".", &entries);
    assert_eq!(
        hint_pairs(&s),
        vec![("log".to_string(), 1), ("pdf".to_string(), 1)]
    );
    assert_eq!(s.suspicious_files, vec!["über.log".to_string()]);
    assert_eq!(
        top_pairs(&s),
        vec![("über.log".to_string(), 3), ("Résumé.PDF".to_string(), 2)]
    );
}

#[test]
fn hint_keys_come_out_sorted() {
    let entries = vec![
        file("x.b", 1),
        file("y.a", 1),
        file("z.c", 1),
        file("w.aa", 1),
        file("v.B", 1),
    ];
    let s = build_summary(".", &entries);
    assert_eq!(
        hint_pairs(&s),
        vec![
            ("a".to_string(), 1),
            ("aa".to_string(), 1),
            ("b".to_string(), 2),
            ("c".to_string(), 1),
        ]
    );
}
