use coreutils_wrapper::confirm::is_affirmative;
use coreutils_wrapper::reconcile::all_succeeded;
use coreutils_wrapper::reconcile::contains_name;
use coreutils_wrapper::reconcile::count_successes;
use coreutils_wrapper::reconcile::drop_is_noop;
use coreutils_wrapper::reconcile::plan_drop;
use coreutils_wrapper::reconcile::plan_install;
use coreutils_wrapper::reconcile::proceed_with_create;
use coreutils_wrapper::reconcile::RemoveOutcome;

fn names(list: &[&str]) -> Vec<Vec<u8>> {
    list.iter().map(|s| s.as_bytes().to_vec()).collect()
}

fn bytes(s: &str) -> Vec<u8> {
    s.as_bytes().to_vec()
}

#[test]
fn install_plan_applies_suffix_in_order() {
    let plan = plan_install(&names(&["ls", "cat"]), &bytes(".exe"), &names(&[]));
    assert_eq!(plan.targets, names(&["ls.exe", "cat.exe"]));
}

#[test]
fn empty_directory_has_no_conflicts() {
    let plan = plan_install(&names(&["ls", "cat"]), &bytes(""), &names(&[]));
    assert_eq!(plan.conflicts, 0);
}

#[test]
fn conflicts_count_existing_targets() {
    let dir = names(&["cat", "unrelated"]);
    let plan = plan_install(&names(&["ls", "cat"]), &bytes(""), &dir);
    assert_eq!(plan.conflicts, 1);
}

#[test]
fn conflicts_count_duplicates_each_time() {
    let dir = names(&["ls"]);
    let plan = plan_install(&names(&["ls", "ls"]), &bytes(""), &dir);
    assert_eq!(plan.conflicts, 2);
}

#[test]
fn conflicts_respect_suffix() {
    let dir = names(&["ls.exe", "cat"]);
    let plan = plan_install(&names(&["ls", "cat"]), &bytes(".exe"), &dir);
    assert_eq!(plan.conflicts, 1);
}

#[test]
fn planned_targets_ignore_preexisting_entries() {
    let requested = names(&["ls", "cat"]);
    let first = plan_install(&requested, &bytes(""), &names(&[]));
    let after = plan_install(&requested, &bytes(""), &first.targets);
    assert_eq!(first.targets, after.targets);
    assert_eq!(after.conflicts, 2);
}

#[test]
fn drop_plan_keeps_only_present_names_in_order() {
    let dir = names(&["c", "a", "unrelated"]);
    let plan = plan_drop(&names(&["a", "b", "c"]), &bytes(""), &dir);
    assert_eq!(plan.matched, names(&["a", "c"]));
}

#[test]
fn drop_plan_respects_suffix() {
    let dir = names(&["ls.exe"]);
    let plan = plan_drop(&names(&["ls", "cat"]), &bytes(".exe"), &dir);
    assert_eq!(plan.matched, names(&["ls.exe"]));
}

#[test]
fn empty_match_set_is_a_noop() {
    let plan = plan_drop(&names(&["ls", "cat"]), &bytes(""), &names(&["unrelated"]));
    assert_eq!(plan.matched, names(&[]));
    assert!(drop_is_noop(&plan));
}

#[test]
fn nonempty_match_set_is_not_a_noop() {
    let plan = plan_drop(&names(&["ls"]), &bytes(""), &names(&["ls"]));
    assert!(!drop_is_noop(&plan));
}

#[test]
fn count_successes_counts_true_entries() {
    assert_eq!(count_successes(&vec![true, false, true]), 2);
    assert_eq!(count_successes(&vec![]), 0);
}

#[test]
fn all_succeeded_only_without_failures() {
    assert!(all_succeeded(&vec![]));
    assert!(all_succeeded(&vec![true, true]));
    assert!(!all_succeeded(&vec![true, false, true]));
}

#[test]
fn affirmative_accepts_trimmed_y_only() {
    assert!(is_affirmative(b"y"));
    assert!(is_affirmative(b"Y"));
    assert!(is_affirmative(b" y \n"));
    assert!(is_affirmative(b"y\r\n"));
    assert!(is_affirmative(b"\x0By\x0C"));
    assert!(!is_affirmative(b"n"));
    assert!(!is_affirmative(b""));
    assert!(!is_affirmative(b"yes"));
    assert!(!is_affirmative(b" \n"));
}

#[test]
fn failed_removal_skips_the_create_only() {
    assert!(proceed_with_create(RemoveOutcome::Removed));
    assert!(proceed_with_create(RemoveOutcome::NotFound));
    assert!(!proceed_with_create(RemoveOutcome::Failed));
}

#[test]
fn search_path_membership() {
    let paths = names(&["/usr/bin", "/home/me/shims"]);
    assert!(contains_name(&paths, &bytes("/home/me/shims")));
    assert!(!contains_name(&paths, &bytes("/home/me")));
}
