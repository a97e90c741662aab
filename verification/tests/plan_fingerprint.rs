use mangodisk_core::fingerprint::plan_hash;
use mangodisk_core::types::{CleanupSourceSelection, CleanupSourceSelectionMode};

fn strings(v: &[&str]) -> Vec<String> {
    v.iter().map(|s| s.to_string()).collect()
}

fn selection(rule_id: &str, mode: CleanupSourceSelectionMode, paths: &[&str]) -> CleanupSourceSelection {
    CleanupSourceSelection { rule_id: rule_id.to_string(), mode, paths: strings(paths) }
}

#[test]
fn plan_hash_is_sha256_of_the_framed_normalized_plan() {
    let hash = plan_hash(
        &"plan-1700000000000".to_string(),
        &strings(&["system.cache", "browser.chrome"]),
        &strings(&["/Users/a/projects", "/Volumes/Data"]),
        &vec![selection("system.cache", CleanupSourceSelectionMode::Include, &["/tmp/b", "/tmp/a"])],
        false,
    );
    assert_eq!(hash, "7e2b1d7b36444761439285e274d6e70a35981fc6b5103fe11ab9c0531cae5f6c");
    let hash = plan_hash(&"plan-42".to_string(), &strings(&["system.fixture"]), &Vec::new(), &Vec::new(), true);
    assert_eq!(hash, "c2f79e60d43f4050594fb13a4be3a06a3a709a67ca434186523ba1e0358df5a5");
    let hash = plan_hash(&"plan-0".to_string(), &Vec::new(), &Vec::new(), &Vec::new(), false);
    assert_eq!(hash, "c1fe0ce346b9aac162c35d5484b0c502b4aea7afcadb2ce5fe9f27d60adc225d");
}

#[test]
fn plan_hash_ignores_the_order_of_rules_roots_paths_and_selections() {
    let a = plan_hash(
        &"plan-9".to_string(),
        &strings(&["b", "a", "c"]),
        &strings(&["/r2", "/r1"]),
        &vec![
            selection("x", CleanupSourceSelectionMode::Exclude, &["/p2", "/p1"]),
            selection("w", CleanupSourceSelectionMode::Include, &["/q"]),
        ],
        true,
    );
    let b = plan_hash(
        &"plan-9".to_string(),
        &strings(&["c", "b", "a"]),
        &strings(&["/r1", "/r2"]),
        &vec![
            selection("w", CleanupSourceSelectionMode::Include, &["/q"]),
            selection("x", CleanupSourceSelectionMode::Exclude, &["/p1", "/p2"]),
        ],
        true,
    );
    assert_eq!(a, b);
    assert_eq!(a.len(), 64);
    assert!(a.chars().all(|c| c.is_ascii_digit() || ('a'..='f').contains(&c)));
}

#[test]
fn plan_hash_distinguishes_mode_run_kind_and_framing() {
    let base = |dry_run: bool, mode: CleanupSourceSelectionMode, ids: &[&str]| {
        plan_hash(
            &"plan-1".to_string(),
            &strings(ids),
            &Vec::new(),
            &vec![selection("r", mode, &["/p"])],
            dry_run,
        )
    };
    let reference = base(false, CleanupSourceSelectionMode::Include, &["ab", "c"]);
    assert_ne!(reference, base(true, CleanupSourceSelectionMode::Include, &["ab", "c"]));
    assert_ne!(reference, base(false, CleanupSourceSelectionMode::Exclude, &["ab", "c"]));
    // Length framing keeps field boundaries apart.
    assert_ne!(reference, base(false, CleanupSourceSelectionMode::Include, &["a", "bc"]));
}

#[test]
fn plan_hash_orders_fields_by_their_utf8_bytes() {
    // "Z" (0x5a) sorts before "a" (0x61), and a prefix before its extensions.
    let a = plan_hash(&"p".to_string(), &strings(&["a", "Z", "ab", "é"]), &Vec::new(), &Vec::new(), false);
    let b = plan_hash(&"p".to_string(), &strings(&["é", "ab", "a", "Z"]), &Vec::new(), &Vec::new(), false);
    assert_eq!(a, b);
}

#[test]
fn plan_hash_keeps_the_order_of_selections_that_share_a_rule() {
    let listed = |sels: Vec<CleanupSourceSelection>| {
        plan_hash(&"plan-2".to_string(), &strings(&["x", "y"]), &Vec::new(), &sels, false)
    };
    let reference = listed(vec![
        selection("x", CleanupSourceSelectionMode::Include, &["/a2", "/a1"]),
        selection("y", CleanupSourceSelectionMode::Exclude, &["/b"]),
        selection("x", CleanupSourceSelectionMode::Exclude, &["/c"]),
    ]);
    // Moving the other rule's selection and reordering paths changes nothing.
    assert_eq!(
        reference,
        listed(vec![
            selection("y", CleanupSourceSelectionMode::Exclude, &["/b"]),
            selection("x", CleanupSourceSelectionMode::Include, &["/a1", "/a2"]),
            selection("x", CleanupSourceSelectionMode::Exclude, &["/c"]),
        ])
    );
    // Swapping two selections of the same rule is another plan.
    assert_ne!(
        reference,
        listed(vec![
            selection("x", CleanupSourceSelectionMode::Exclude, &["/c"]),
            selection("y", CleanupSourceSelectionMode::Exclude, &["/b"]),
            selection("x", CleanupSourceSelectionMode::Include, &["/a2", "/a1"]),
        ])
    );
}

#[test]
fn plan_hash_tells_plans_apart() {
    let hash = |plan_id: &str, ids: &[&str], dry_run: bool| {
        plan_hash(&plan_id.to_string(), &strings(ids), &Vec::new(), &Vec::new(), dry_run)
    };
    assert_ne!(hash("p", &["r"], true), hash("p", &["r"], false));
    assert_ne!(hash("p", &["ab"], false), hash("p", &["a", "b"], false));
    assert_ne!(hash("p1", &["r"], false), hash("p2", &["r"], false));
    assert_ne!(hash("p", &["r"], false), hash("pr", &[], false));
}
