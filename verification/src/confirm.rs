//! The confirmation step that gates every mutation batch.
//!
//! The caller prompts and reads one line; the decision of what counts as
//! consent, and what declining means for the directory, is made here.

use vstd::prelude::*;

use crate::reconcile::apply_drop;
use crate::reconcile::apply_install;
use crate::reconcile::FsEntry;
use crate::scan::trim;
use crate::scan::trim_bytes;

verus! {

/// An upper-case ASCII letter folded to lower case.
pub open spec fn lower(b: u8) -> u8 {
    if 65 <= b <= 90 {
        (b + 32) as u8
    } else {
        b
    }
}

/// A response consents exactly when, trimmed and case-folded, it is the
/// single letter `y`.
pub open spec fn affirmative(response: Seq<u8>) -> bool {
    trim(response).map_values(|b: u8| lower(b)) == seq![121u8]
}

/// Decides whether a prompt response consents to the mutation batch.
pub fn is_affirmative(response: &[u8]) -> (r: bool)
    ensures
        r == affirmative(response@),
{
    let t = trim_bytes(response);
    if t.len() == 1 {
        let b = t[0];
        proof {
            let mapped = trim(response@).map_values(|x: u8| lower(x));
            assert(mapped[0] == lower(b));
            if lower(b) == 121 {
                assert(mapped =~= seq![121u8]);
            } else {
                assert(mapped[0] != seq![121u8][0]);
            }
        }
        b == 121 || b == 89
    } else {
        proof {
            let mapped = trim(response@).map_values(|x: u8| lower(x));
            assert(mapped.len() != seq![121u8].len());
        }
        false
    }
}

/// Exit code when the user declines a confirmation prompt.
pub open spec fn decline_exit_code() -> int {
    1
}

/// The outcome of the install flow once the plan is shown and the prompt
/// answered: on consent the directory model after installing and exit code
/// 0, on decline the directory untouched and exit code 1.
pub open spec fn install_outcome(
    dir: Map<Seq<u8>, FsEntry>,
    targets: Seq<Seq<u8>>,
    own: Seq<u8>,
    response: Seq<u8>,
) -> (Map<Seq<u8>, FsEntry>, int) {
    if affirmative(response) {
        (apply_install(dir, targets, own), 0)
    } else {
        (dir, decline_exit_code())
    }
}

/// Declining the install confirmation leaves the directory's file set
/// unchanged and ends the run with exit code 1.
pub proof fn lemma_decline_mutates_nothing(
    dir: Map<Seq<u8>, FsEntry>,
    targets: Seq<Seq<u8>>,
    own: Seq<u8>,
    response: Seq<u8>,
)
    requires
        !affirmative(response),
    ensures
        install_outcome(dir, targets, own, response) == (dir, decline_exit_code()),
{
}

/// The outcome of the uninstall flow once the matched set is computed: an
/// empty matched set is a no-op that prompts for nothing and exits 0;
/// otherwise on consent the directory after the deletions and exit code 0,
/// on decline the directory untouched and exit code 1.
pub open spec fn drop_outcome(
    dir: Map<Seq<u8>, FsEntry>,
    matched: Seq<Seq<u8>>,
    response: Seq<u8>,
) -> (Map<Seq<u8>, FsEntry>, int) {
    if matched.len() == 0 {
        (dir, 0)
    } else if affirmative(response) {
        (apply_drop(dir, matched), 0)
    } else {
        (dir, decline_exit_code())
    }
}

/// Declining the drop confirmation (which is only asked when something
/// matched) deletes nothing and ends the run with exit code 1.
pub proof fn lemma_decline_drop_mutates_nothing(
    dir: Map<Seq<u8>, FsEntry>,
    matched: Seq<Seq<u8>>,
    response: Seq<u8>,
)
    requires
        matched.len() > 0,
        !affirmative(response),
    ensures
        drop_outcome(dir, matched, response) == (dir, decline_exit_code()),
{
}

} // verus!
