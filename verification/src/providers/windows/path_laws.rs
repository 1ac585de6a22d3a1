//! Which directories of Windows can be trusted, and where the library is looked for in them.
use crate::model::UnavailableReason;
use crate::providers::windows::nvml_loader::{
    drive_at, failure_words, goes_elsewhere, graver, has_device, has_share, is_separator,
    is_trusted_root, is_verbatim, leads_elsewhere, library_in, part_end, root_end, TrustedLocation,
};
use crate::text::enumerated;
use vstd::prelude::*;

verus! {

proof fn lemma_part_end(path: Seq<char>, at: int, stop: int)
    requires
        0 <= at <= stop <= path.len(),
        stop < path.len() ==> is_separator(path[stop]),
    ensures
        at <= part_end(path, at, false) <= stop,
        forall|i: int| at <= i < part_end(path, at, false) ==> !is_separator(#[trigger] path[i]),
        part_end(path, at, false) < path.len() ==> is_separator(
            path[part_end(path, at, false)],
        ),
    decreases path.len() - at,
{
    if at < path.len() && !is_separator(path[at]) {
        lemma_part_end(path, at + 1, stop);
    }
}

proof fn lemma_parent_is_seen(path: Seq<char>, at: int, p: int)
    requires
        0 <= at <= p,
        0 < p,
        p + 2 <= path.len(),
        is_separator(path[p - 1]),
        path[p] == '.',
        path[p + 1] == '.',
        p + 2 < path.len() ==> is_separator(path[p + 2]),
    ensures
        goes_elsewhere(path, at, false),
    decreases path.len() - at,
{
    if at == p {
        lemma_part_end(path, p, p + 2);
        let end = part_end(path, p, false);
        assert(!is_separator(path[p]) && !is_separator(path[p + 1]));
        assert(end == p + 2) by {
            if end < p + 2 {
                assert(is_separator(path[end]));
            }
        }
        assert(path.subrange(p, p + 2) =~= seq!['.', '.']);
    } else if is_separator(path[at]) {
        lemma_parent_is_seen(path, at + 1, p);
    } else {
        lemma_part_end(path, at, p - 1);
        let end = part_end(path, at, false);
        assert(at < end) by {
            if end == at {
                assert(is_separator(path[at]));
            }
        }
        lemma_parent_is_seen(path, end, p);
    }
}

/// A directory on a drive with a step to the parent in its path is not trusted.
pub proof fn law_steps_to_the_parent_are_not_trusted(path: Seq<char>, p: int)
    requires
        drive_at(path, 0),
        3 <= p,
        p + 2 <= path.len(),
        is_separator(path[2]),
        is_separator(path[p - 1]),
        path[p] == '.',
        path[p + 1] == '.',
        p + 2 < path.len() ==> is_separator(path[p + 2]),
    ensures
        !is_trusted_root(path),
{
    reveal_strlit(r"\\?\");
    assert(!is_verbatim(path)) by {
        if is_verbatim(path) {
            assert(path.subrange(0, 4)[0] == path[0]);
        }
    }
    assert(root_end(path) == Some(2int));
    lemma_parent_is_seen(path, 3, p);
}

proof fn lemma_no_points(path: Seq<char>, at: int)
    requires
        0 <= at,
        forall|i: int| 0 <= i < path.len() ==> #[trigger] path[i] != '.',
    ensures
        !goes_elsewhere(path, at, false),
    decreases path.len() - at,
{
    if at < path.len() {
        if is_separator(path[at]) {
            lemma_no_points(path, at + 1);
        } else {
            lemma_part_end(path, at, path.len() as int);
            let end = part_end(path, at, false);
            if at < end && end <= path.len() {
                let part = path.subrange(at, end);
                assert(part[0] == path[at]);
                assert(!leads_elsewhere(part, false)) by {
                    assert(seq!['.', '.'][0] == '.');
                }
                lemma_no_points(path, end);
            }
        }
    }
}

/// A directory on a drive whose path has no points is trusted.
pub proof fn law_plain_directories_on_a_drive_are_trusted(path: Seq<char>)
    requires
        drive_at(path, 0),
        path.len() >= 3,
        is_separator(path[2]),
        forall|i: int| 0 <= i < path.len() ==> #[trigger] path[i] != '.',
    ensures
        is_trusted_root(path),
{
    reveal_strlit(r"\\?\");
    assert(!is_verbatim(path)) by {
        if is_verbatim(path) {
            assert(path.subrange(0, 4)[0] == path[0]);
        }
    }
    assert(!has_device(path));
    assert(!has_share(path));
    lemma_no_points(path, 3);
}

/// A path that starts neither with a separator nor with a drive and its root is not absolute, and
/// not trusted.
pub proof fn law_relative_directories_are_not_trusted(path: Seq<char>)
    requires
        path.len() == 0 || !is_separator(path[0]),
        path.len() < 3 || path[1] != ':' || !is_separator(path[2]),
    ensures
        !is_trusted_root(path),
{
    reveal_strlit(r"\\?\");
    assert(!is_verbatim(path)) by {
        if is_verbatim(path) {
            assert(path.subrange(0, 4)[0] == path[0]);
        }
    }
}

/// In a trusted directory the library is `nvml.dll` of the system's, or that of NVSMI below the
/// programs; elsewhere there is none.
pub proof fn law_the_library_is_looked_for_by_name(directory: String)
    requires
        !is_verbatim(directory@),
        directory@.len() > 0,
    ensures
        ({
            let system = library_in(Some(directory), TrustedLocation::SystemDirectory);
            let legacy = library_in(Some(directory), TrustedLocation::LegacyNvsmi);
            let open = if is_separator(directory@.last()) {
                directory@
            } else {
                directory@ + seq!['\\']
            };
            &&& is_trusted_root(directory@) ==> system == seq![
                (open + "nvml.dll"@, TrustedLocation::SystemDirectory),
            ]
            &&& is_trusted_root(directory@) ==> legacy == seq![
                (open + r"NVIDIA Corporation\NVSMI\nvml.dll"@, TrustedLocation::LegacyNvsmi),
            ]
            &&& !is_trusted_root(directory@) ==> system.len() == 0 && legacy.len() == 0
        }),
{
}

/// The last failure gives the reason, but a missing permission is not forgotten.
pub proof fn law_missing_permissions_are_not_forgotten(
    before: Option<UnavailableReason>,
    next: UnavailableReason,
)
    ensures
        before == Some(UnavailableReason::PermissionDenied) ==> graver(before, next) == before,
        next == UnavailableReason::PermissionDenied ==> graver(before, next) == Some(next),
        before != Some(UnavailableReason::PermissionDenied) ==> graver(before, next) == Some(next),
{
}

/// What went wrong is told; where nothing did, that nothing was found.
pub proof fn law_failures_of_the_loader_are_told(details: Seq<Seq<char>>)
    ensures
        details.len() == 0 ==> failure_words(details)
            == "NVML was not found in the Windows system directory or the NVIDIA NVSMI directory under Program Files"@,
        details.len() == 1 ==> failure_words(details)
            == "could not initialize NVML from a trusted Windows location: "@ + details[0],
        details.len() == 2 ==> failure_words(details)
            == "could not initialize NVML from a trusted Windows location: "@ + (details[0] + "; "@
            + details[1]),
{
    if details.len() == 2 {
        assert(details.drop_last() =~= seq![details[0]]);
        assert(enumerated(details.drop_last()) == details[0]);
    }
}

} // verus!
