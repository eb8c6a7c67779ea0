//! Flow-level model: what one reconciler run does to the directory.
//!
//! A run discovers the utility names from the captured output, plans the
//! targets or the matched set, asks for confirmation and only then
//! mutates. This module composes the models of those steps, so that the
//! statements "a discovery failure mutates nothing" and "a declined prompt
//! mutates nothing" can be made about each run as a whole.

use vstd::prelude::*;

use crate::confirm::affirmative;
use crate::discovery::discovered_names;
use crate::discovery::marker;
use crate::discovery::names_of_banner;
use crate::discovery::DiscoveryError;
use crate::reconcile::apply_drop;
use crate::reconcile::apply_install;
use crate::reconcile::target_names;
use crate::reconcile::FsEntry;
use crate::scan::find_from;

verus! {

/// The directory model after one install run: unchanged when discovery
/// fails or the prompt is declined; otherwise every discovered name, with
/// the platform suffix applied, links to the program's own executable.
pub open spec fn link_flow_directory(
    output: Seq<u8>,
    dir: Map<Seq<u8>, FsEntry>,
    suffix: Seq<u8>,
    own: Seq<u8>,
    response: Seq<u8>,
) -> Map<Seq<u8>, FsEntry> {
    match discovered_names(output) {
        Result::Err(_) => dir,
        Result::Ok(names) => if affirmative(response) {
            apply_install(dir, target_names(names, suffix), own)
        } else {
            dir
        },
    }
}

/// The suffix-adjusted discovered names that exist in the directory model.
pub open spec fn matched_keys(targets: Seq<Seq<u8>>, dir: Map<Seq<u8>, FsEntry>) -> Seq<Seq<u8>>
    decreases targets.len(),
{
    if targets.len() == 0 {
        Seq::empty()
    } else {
        matched_keys(targets.drop_last(), dir) + if dir.contains_key(targets.last()) {
            seq![targets.last()]
        } else {
            Seq::empty()
        }
    }
}

/// The directory model after one uninstall run: unchanged when discovery
/// fails, when no suffix-adjusted name is present (the no-op case, which
/// also prompts for nothing), or when the prompt is declined; otherwise
/// every matched name is gone.
pub open spec fn drop_flow_directory(
    output: Seq<u8>,
    dir: Map<Seq<u8>, FsEntry>,
    suffix: Seq<u8>,
    response: Seq<u8>,
) -> Map<Seq<u8>, FsEntry> {
    match discovered_names(output) {
        Result::Err(_) => dir,
        Result::Ok(names) => {
            let matched = matched_keys(target_names(names, suffix), dir);
            if matched.len() == 0 {
                dir
            } else if affirmative(response) {
                apply_drop(dir, matched)
            } else {
                dir
            }
        },
    }
}

/// When the marker phrase is absent from the banner text, discovery fails
/// with `MarkerNotFound` and neither run performs a mutation downstream.
pub proof fn lemma_marker_missing_mutates_nothing(
    output: Seq<u8>,
    dir: Map<Seq<u8>, FsEntry>,
    suffix: Seq<u8>,
    own: Seq<u8>,
    response: Seq<u8>,
)
    requires
        find_from(output, marker(), 0) is None,
    ensures
        names_of_banner(output) == Err::<Seq<Seq<u8>>, DiscoveryError>(
            DiscoveryError::MarkerNotFound,
        ),
        link_flow_directory(output, dir, suffix, own, response) == dir,
        drop_flow_directory(output, dir, suffix, response) == dir,
{
}

/// A non-affirmative prompt response leaves the directory unchanged in
/// either run, whatever discovery returned.
pub proof fn lemma_decline_leaves_directory(
    output: Seq<u8>,
    dir: Map<Seq<u8>, FsEntry>,
    suffix: Seq<u8>,
    own: Seq<u8>,
    response: Seq<u8>,
)
    requires
        !affirmative(response),
    ensures
        link_flow_directory(output, dir, suffix, own, response) == dir,
        drop_flow_directory(output, dir, suffix, response) == dir,
{
}

} // verus!
