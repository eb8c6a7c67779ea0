//! Shim reconciliation: planning which directory entries to create or
//! delete, and the directory model that the mutation loops realise.
//!
//! The caller owns the filesystem: it hands in the current directory
//! listing as byte-vector names and performs the creations and deletions a
//! plan calls for, one entry at a time and best effort. The functions here
//! compute the plans, and the `Map`-based model (`apply_install`,
//! `apply_drop`) states what a fully successful mutation loop does to the
//! directory, which is what the lemmas below speak about.

use vstd::prelude::*;

use crate::scan::bytes_eq;

verus! {

/// Model of one directory entry: a shim link and what it points at, or an
/// entry of any other kind.
pub enum FsEntry {
    Link { dest: Seq<u8> },
    Other,
}

/// Each requested name with the platform executable suffix appended.
pub open spec fn target_names(names: Seq<Seq<u8>>, suffix: Seq<u8>) -> Seq<Seq<u8>> {
    names.map_values(|n: Seq<u8>| n + suffix)
}

/// How many targets already exist in the directory listing, duplicates
/// counted each time they are requested.
pub open spec fn conflict_count(targets: Seq<Seq<u8>>, dir: Seq<Seq<u8>>) -> nat
    decreases targets.len(),
{
    if targets.len() == 0 {
        0
    } else {
        conflict_count(targets.drop_last(), dir) + if dir.contains(targets.last()) {
            1nat
        } else {
            0nat
        }
    }
}

/// The targets that are present in the directory listing, in request order.
pub open spec fn matched_names(targets: Seq<Seq<u8>>, dir: Seq<Seq<u8>>) -> Seq<Seq<u8>>
    decreases targets.len(),
{
    if targets.len() == 0 {
        Seq::empty()
    } else {
        matched_names(targets.drop_last(), dir) + if dir.contains(targets.last()) {
            seq![targets.last()]
        } else {
            Seq::empty()
        }
    }
}

/// An install plan: the shim names to create and how many of them collide
/// with entries that already exist.
pub struct InstallPlan {
    /// Shim file names to create, in request order, suffix applied.
    pub targets: Vec<Vec<u8>>,
    /// How many targets already exist in the directory.
    pub conflicts: usize,
}

/// An uninstall plan: the shim names that are actually present.
pub struct DropPlan {
    /// Existing shim file names to delete, in request order.
    pub matched: Vec<Vec<u8>>,
}

/// Whether a listing of names holds this one: used for the conflict and
/// matched-path checks, and for checking whether the working directory
/// appears among the entries of the executable search path.
pub fn contains_name(dir: &Vec<Vec<u8>>, x: &Vec<u8>) -> (r: bool)
    ensures
        r == dir.deep_view().contains(x@),
{
    let mut i: usize = 0;
    while i < dir.len()
        invariant
            i <= dir@.len(),
            forall|j: int| 0 <= j < i ==> dir.deep_view()[j] != x@,
        decreases dir@.len() - i,
    {
        proof {
            assert(dir.deep_view()[i as int] =~= dir@[i as int]@);
        }
        if bytes_eq(&dir[i], x) {
            proof {
                assert(dir.deep_view()[i as int] == x@);
            }
            return true;
        }
        i += 1;
    }
    proof {
        assert(!dir.deep_view().contains(x@));
    }
    false
}

/// Concatenation of two byte strings.
fn concat_bytes(a: &Vec<u8>, b: &Vec<u8>) -> (r: Vec<u8>)
    ensures
        r@ == a@ + b@,
{
    let mut r: Vec<u8> = Vec::new();
    let mut i: usize = 0;
    while i < a.len()
        invariant
            i <= a@.len(),
            r@ == a@.subrange(0, i as int),
        decreases a@.len() - i,
    {
        r.push(a[i]);
        proof {
            assert(a@.subrange(0, i + 1) =~= a@.subrange(0, i as int).push(a@[i as int]));
        }
        i += 1;
    }
    proof {
        assert(a@.subrange(0, a@.len() as int) =~= a@);
    }
    let mut j: usize = 0;
    while j < b.len()
        invariant
            j <= b@.len(),
            r@ == a@ + b@.subrange(0, j as int),
        decreases b@.len() - j,
    {
        r.push(b[j]);
        proof {
            assert(a@ + b@.subrange(0, j + 1) =~= (a@ + b@.subrange(0, j as int)).push(
                b@[j as int],
            ));
        }
        j += 1;
    }
    proof {
        assert(a@ + b@.subrange(0, b@.len() as int) =~= a@ + b@);
    }
    r
}

/// Computes the install plan: the suffix-adjusted target names and the
/// number of them that already exist in the directory listing. An empty
/// directory has no conflicts.
pub fn plan_install(names: &Vec<Vec<u8>>, suffix: &Vec<u8>, dir: &Vec<Vec<u8>>) -> (plan:
    InstallPlan)
    ensures
        plan.targets.deep_view() == target_names(names.deep_view(), suffix@),
        plan.conflicts == conflict_count(target_names(names.deep_view(), suffix@), dir.deep_view()),
        dir.deep_view().len() == 0 ==> plan.conflicts == 0,
{
    let ghost all_targets = target_names(names.deep_view(), suffix@);
    let mut targets: Vec<Vec<u8>> = Vec::new();
    let mut conflicts: usize = 0;
    let mut i: usize = 0;
    proof {
        assert(targets.deep_view() =~~= all_targets.take(0));
    }
    while i < names.len()
        invariant
            i <= names@.len(),
            all_targets == target_names(names.deep_view(), suffix@),
            targets.deep_view() == all_targets.take(i as int),
            conflicts == conflict_count(all_targets.take(i as int), dir.deep_view()),
            conflicts <= i,
        decreases names@.len() - i,
    {
        let t = concat_bytes(&names[i], suffix);
        proof {
            assert(t@ == all_targets[i as int]);
        }
        if contains_name(dir, &t) {
            conflicts += 1;
        }
        let ghost old_deep = targets.deep_view();
        targets.push(t);
        proof {
            assert(targets.deep_view() =~~= old_deep.push(t@));
            assert(all_targets.take(i + 1) =~~= all_targets.take(i as int).push(
                all_targets[i as int],
            ));
            assert(all_targets.take(i + 1).drop_last() =~~= all_targets.take(i as int));
            assert(all_targets.take(i + 1).last() == all_targets[i as int]);
        }
        i += 1;
    }
    proof {
        assert(all_targets.take(names@.len() as int) =~~= all_targets);
        if dir.deep_view().len() == 0 {
            lemma_conflict_count_empty_dir(all_targets, dir.deep_view());
        }
    }
    InstallPlan { targets, conflicts }
}

/// With no directory entries there is nothing to conflict with.
proof fn lemma_conflict_count_empty_dir(targets: Seq<Seq<u8>>, dir: Seq<Seq<u8>>)
    requires
        dir.len() == 0,
    ensures
        conflict_count(targets, dir) == 0,
    decreases targets.len(),
{
    if targets.len() > 0 {
        lemma_conflict_count_empty_dir(targets.drop_last(), dir);
    }
}

/// Computes the uninstall plan: the suffix-adjusted names that actually
/// exist in the directory listing, in request order.
pub fn plan_drop(names: &Vec<Vec<u8>>, suffix: &Vec<u8>, dir: &Vec<Vec<u8>>) -> (plan: DropPlan)
    ensures
        plan.matched.deep_view() == matched_names(
            target_names(names.deep_view(), suffix@),
            dir.deep_view(),
        ),
{
    let ghost all_targets = target_names(names.deep_view(), suffix@);
    let mut matched: Vec<Vec<u8>> = Vec::new();
    let mut i: usize = 0;
    proof {
        assert(matched.deep_view() =~~= matched_names(all_targets.take(0), dir.deep_view()));
    }
    while i < names.len()
        invariant
            i <= names@.len(),
            all_targets == target_names(names.deep_view(), suffix@),
            matched.deep_view() == matched_names(all_targets.take(i as int), dir.deep_view()),
        decreases names@.len() - i,
    {
        let t = concat_bytes(&names[i], suffix);
        proof {
            assert(t@ == all_targets[i as int]);
            assert(all_targets.take(i + 1).drop_last() =~~= all_targets.take(i as int));
            assert(all_targets.take(i + 1).last() == all_targets[i as int]);
        }
        if contains_name(dir, &t) {
            let ghost old_deep = matched.deep_view();
            matched.push(t);
            proof {
                assert(matched.deep_view() =~~= old_deep.push(t@));
                assert(matched.deep_view() =~~= matched_names(
                    all_targets.take(i + 1),
                    dir.deep_view(),
                ));
            }
        } else {
            proof {
                assert(matched.deep_view() =~~= matched_names(
                    all_targets.take(i + 1),
                    dir.deep_view(),
                ));
            }
        }
        i += 1;
    }
    proof {
        assert(all_targets.take(names@.len() as int) =~~= all_targets);
    }
    DropPlan { matched }
}

/// An uninstall with nothing to delete is a no-op: the caller prompts for
/// nothing and deletes nothing.
pub fn drop_is_noop(plan: &DropPlan) -> (r: bool)
    ensures
        r == (plan.matched.deep_view().len() == 0),
{
    plan.matched.len() == 0
}

/// The directory after a fully successful install: every target name is a
/// link to the program's own executable, and nothing else changes.
pub open spec fn apply_install(
    dir: Map<Seq<u8>, FsEntry>,
    targets: Seq<Seq<u8>>,
    own: Seq<u8>,
) -> Map<Seq<u8>, FsEntry>
    decreases targets.len(),
{
    if targets.len() == 0 {
        dir
    } else {
        apply_install(
            dir.insert(targets[0], FsEntry::Link { dest: own }),
            targets.drop_first(),
            own,
        )
    }
}

/// The directory after a fully successful uninstall: every matched name is
/// gone, and nothing else changes.
pub open spec fn apply_drop(dir: Map<Seq<u8>, FsEntry>, matched: Seq<Seq<u8>>) -> Map<
    Seq<u8>,
    FsEntry,
>
    decreases matched.len(),
{
    if matched.len() == 0 {
        dir
    } else {
        apply_drop(dir.remove(matched[0]), matched.drop_first())
    }
}

/// What installing does, entry by entry: a target name points at the
/// program's own executable afterwards, and a name that was not requested
/// keeps its old entry.
pub proof fn lemma_apply_install_entries(
    dir: Map<Seq<u8>, FsEntry>,
    targets: Seq<Seq<u8>>,
    own: Seq<u8>,
)
    ensures
        forall|k: Seq<u8>|
            #[trigger] apply_install(dir, targets, own).contains_key(k) <==> (dir.contains_key(k)
                || targets.contains(k)),
        forall|k: Seq<u8>|
            targets.contains(k) ==> #[trigger] apply_install(dir, targets, own)[k] == (
            FsEntry::Link { dest: own }),
        forall|k: Seq<u8>|
            !targets.contains(k) && dir.contains_key(k) ==> #[trigger] apply_install(
                dir,
                targets,
                own,
            )[k] == dir[k],
    decreases targets.len(),
{
    if targets.len() > 0 {
        let dir1 = dir.insert(targets[0], FsEntry::Link { dest: own });
        lemma_apply_install_entries(dir1, targets.drop_first(), own);
        assert forall|k: Seq<u8>| #[trigger] targets.contains(k) implies targets[0] == k
            || targets.drop_first().contains(k) by {
            let w = choose|w: int| 0 <= w < targets.len() && targets[w] == k;
            if w > 0 {
                assert(targets.drop_first()[w - 1] == k);
            }
        }
        assert forall|k: Seq<u8>| #[trigger] targets.drop_first().contains(k) implies
            targets.contains(k) by {
            let w = choose|w: int| 0 <= w < targets.drop_first().len() && targets.drop_first()[w]
                == k;
            assert(targets[w + 1] == k);
        }
        assert(targets.contains(targets[0]));
    }
}

/// Installing the same targets twice gives the directory that installing
/// them once gives, whatever was there before.
pub proof fn lemma_apply_install_idempotent(
    dir: Map<Seq<u8>, FsEntry>,
    targets: Seq<Seq<u8>>,
    own: Seq<u8>,
)
    ensures
        apply_install(apply_install(dir, targets, own), targets, own) == apply_install(
            dir,
            targets,
            own,
        ),
{
    let once = apply_install(dir, targets, own);
    let twice = apply_install(once, targets, own);
    lemma_apply_install_entries(dir, targets, own);
    lemma_apply_install_entries(once, targets, own);
    assert forall|k: Seq<u8>| #[trigger] twice.contains_key(k) implies once.contains_key(k)
        && twice[k] == once[k] by {
        if targets.contains(k) {
        } else {
        }
    }
    assert(twice =~= once);
}

/// What uninstalling does, entry by entry: every matched name is gone
/// afterwards, and a name that was not matched keeps its old entry.
pub proof fn lemma_apply_drop_entries(dir: Map<Seq<u8>, FsEntry>, matched: Seq<Seq<u8>>)
    ensures
        forall|k: Seq<u8>|
            #[trigger] apply_drop(dir, matched).contains_key(k) <==> (dir.contains_key(k)
                && !matched.contains(k)),
        forall|k: Seq<u8>|
            !matched.contains(k) && dir.contains_key(k) ==> #[trigger] apply_drop(dir, matched)[k]
                == dir[k],
    decreases matched.len(),
{
    if matched.len() > 0 {
        let dir1 = dir.remove(matched[0]);
        assert(apply_drop(dir, matched) == apply_drop(dir1, matched.drop_first()));
        lemma_apply_drop_entries(dir1, matched.drop_first());
        assert forall|k: Seq<u8>| #[trigger] matched.contains(k) implies matched[0] == k
            || matched.drop_first().contains(k) by {
            let w = choose|w: int| 0 <= w < matched.len() && matched[w] == k;
            if w > 0 {
                assert(matched.drop_first()[w - 1] == k);
            }
        }
        assert forall|k: Seq<u8>| #[trigger] matched.drop_first().contains(k) implies
            matched.contains(k) by {
            let w = choose|w: int|
                0 <= w < matched.drop_first().len() && matched.drop_first()[w] == k;
            assert(matched[w + 1] == k);
        }
        assert(matched.contains(matched[0]));
    }
}

/// Dropping an empty matched set leaves the directory as it is.
pub proof fn lemma_apply_drop_empty(dir: Map<Seq<u8>, FsEntry>, matched: Seq<Seq<u8>>)
    requires
        matched.len() == 0,
    ensures
        apply_drop(dir, matched) == dir,
{
}

/// What the caller observed when best-effort deleting the entry that may
/// already sit where one target shim goes.
#[derive(Clone, Copy, Debug, PartialEq, Eq, Structural)]
pub enum RemoveOutcome {
    /// An entry existed and was deleted.
    Removed,
    /// No entry of that name existed, which counts as success.
    NotFound,
    /// The deletion failed for any other reason.
    Failed,
}

/// Per-entry install policy: the shim is created unless the preceding
/// best-effort delete failed outright; an absent entry counts as deleted,
/// and a failure skips only this entry, never the batch.
pub fn proceed_with_create(outcome: RemoveOutcome) -> (r: bool)
    ensures
        r == (outcome != RemoveOutcome::Failed),
{
    match outcome {
        RemoveOutcome::Removed => true,
        RemoveOutcome::NotFound => true,
        RemoveOutcome::Failed => false,
    }
}

/// How many entries a mutation loop reports as successfully handled.
pub open spec fn count_true(results: Seq<bool>) -> nat
    decreases results.len(),
{
    if results.len() == 0 {
        0
    } else {
        count_true(results.drop_last()) + if results.last() {
            1nat
        } else {
            0nat
        }
    }
}

/// Counts the entries that were successfully created or deleted.
pub fn count_successes(results: &Vec<bool>) -> (n: usize)
    ensures
        n == count_true(results@),
{
    let mut n: usize = 0;
    let mut i: usize = 0;
    while i < results.len()
        invariant
            i <= results@.len(),
            n == count_true(results@.take(i as int)),
            n <= i,
        decreases results@.len() - i,
    {
        proof {
            assert(results@.take(i + 1).drop_last() =~= results@.take(i as int));
            assert(results@.take(i + 1).last() == results@[i as int]);
        }
        if results[i] {
            n += 1;
        }
        i += 1;
    }
    proof {
        assert(results@.take(results@.len() as int) =~= results@);
    }
    n
}

/// True only when every entry of the batch succeeded; the batch summary of
/// an uninstall run.
pub fn all_succeeded(results: &Vec<bool>) -> (r: bool)
    ensures
        r == (count_true(results@) == results@.len()),
{
    let mut i: usize = 0;
    while i < results.len()
        invariant
            i <= results@.len(),
            count_true(results@.take(i as int)) == i,
        decreases results@.len() - i,
    {
        proof {
            assert(results@.take(i + 1).drop_last() =~= results@.take(i as int));
            assert(results@.take(i + 1).last() == results@[i as int]);
        }
        if !results[i] {
            proof {
                lemma_count_true_bound(results@);
                lemma_count_true_drop(results@, i as int);
            }
            return false;
        }
        i += 1;
    }
    proof {
        assert(results@.take(results@.len() as int) =~= results@);
    }
    true
}

/// The success count never exceeds the batch size.
proof fn lemma_count_true_bound(results: Seq<bool>)
    ensures
        count_true(results) <= results.len(),
    decreases results.len(),
{
    if results.len() > 0 {
        lemma_count_true_bound(results.drop_last());
    }
}

/// A failed entry keeps the success count below the batch size.
proof fn lemma_count_true_drop(results: Seq<bool>, i: int)
    requires
        0 <= i < results.len(),
        !results[i],
    ensures
        count_true(results) < results.len(),
    decreases results.len(),
{
    if i < results.len() - 1 {
        lemma_count_true_drop(results.drop_last(), i);
    } else {
        lemma_count_true_bound(results.drop_last());
    }
}

} // verus!
