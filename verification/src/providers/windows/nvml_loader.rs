//! From where the NVML library may be loaded on Windows.
use crate::model::UnavailableReason;
use crate::providers::nvml::NvmlErrorKind;
use crate::text::{
    chars_of, enumerate_texts, enumerated, extend, extend_text, joined, lower, lowered, owned,
    slice_of, starts_with, string_of, strip_start,
};
use vstd::prelude::*;

verus! {

/// The longest path that is taken from the system, in UTF-16 units.
pub const MAX_WINDOWS_PATH_UNITS: usize = 32_768;

/// Why the library could not be loaded.
#[derive(Debug)]
pub struct NvmlLoadFailure {
    pub reason: UnavailableReason,
    pub message: String,
}

/// The directories that the system keeps for itself.
#[derive(Clone, Copy, Debug, PartialEq, Eq, Structural)]
pub enum TrustedLocation {
    SystemDirectory,
    LegacyNvsmi,
}

pub open spec fn location_name(location: TrustedLocation) -> Seq<char> {
    match location {
        TrustedLocation::SystemDirectory => "the Windows system directory"@,
        TrustedLocation::LegacyNvsmi => "the NVIDIA NVSMI directory under Program Files"@,
    }
}

impl TrustedLocation {
    pub fn description(self) -> (text: &'static str)
        ensures
            text@ == location_name(self),
    {
        match self {
            TrustedLocation::SystemDirectory => "the Windows system directory",
            TrustedLocation::LegacyNvsmi => "the NVIDIA NVSMI directory under Program Files",
        }
    }
}

/// A character that may stand between the components of a path.
pub open spec fn is_separator(c: char) -> bool {
    c == '\\' || c == '/'
}

/// A character between the components of a path. A path that is taken by the letter knows the
/// backslash alone.
pub open spec fn parts_at(c: char, verbatim: bool) -> bool {
    c == '\\' || (c == '/' && !verbatim)
}

fn separates(c: char) -> (separator: bool)
    ensures
        separator == is_separator(c),
{
    c == '\\' || c == '/'
}

fn parts(c: char, verbatim: bool) -> (separator: bool)
    ensures
        separator == parts_at(c, verbatim),
{
    c == '\\' || (c == '/' && !verbatim)
}

/// The position of the first separator from `at`, the end where there is none.
pub open spec fn part_end(path: Seq<char>, at: int, verbatim: bool) -> int
    decreases path.len() - at,
{
    if at < 0 || at >= path.len() || parts_at(path[at], verbatim) {
        at
    } else {
        part_end(path, at + 1, verbatim)
    }
}

fn end_of_part(path: &Vec<char>, at: usize, verbatim: bool) -> (end: usize)
    requires
        at <= path@.len(),
    ensures
        end == part_end(path@, at as int, verbatim),
        at <= end <= path@.len(),
        end < path@.len() ==> parts_at(path@[end as int], verbatim),
{
    let mut end: usize = at;
    while end < path.len() && !parts(path[end], verbatim)
        invariant
            at <= end <= path@.len(),
            part_end(path@, at as int, verbatim) == part_end(path@, end as int, verbatim),
        decreases path.len() - end,
    {
        end = end + 1;
    }
    end
}

/// A drive stands at `at`.
pub open spec fn drive_at(path: Seq<char>, at: int) -> bool {
    &&& at + 2 <= path.len()
    &&& ('a' <= path[at] <= 'z' || 'A' <= path[at] <= 'Z')
    &&& path[at + 1] == ':'
}

fn is_drive_at(path: &Vec<char>, at: usize) -> (drive: bool)
    requires
        at <= path@.len(),
    ensures
        drive == drive_at(path@, at as int),
{
    path.len() - at >= 2 && (('a' <= path[at] && path[at] <= 'z') || ('A' <= path[at] && path[at]
        <= 'Z')) && path[at + 1] == ':'
}

/// The path starts with a drive and goes on from its root.
pub open spec fn has_drive(path: Seq<char>) -> bool {
    drive_at(path, 0) && path.len() >= 3 && is_separator(path[2])
}

/// The path starts with the mark of a device.
pub open spec fn has_device(path: Seq<char>) -> bool {
    &&& path.len() >= 4
    &&& is_separator(path[0])
    &&& is_separator(path[1])
    &&& path[2] == '.'
    &&& is_separator(path[3])
}

/// The path starts with a server and a share.
pub open spec fn has_share(path: Seq<char>) -> bool {
    &&& path.len() >= 5
    &&& is_separator(path[0])
    &&& is_separator(path[1])
    &&& 2 < part_end(path, 2, false) < path.len() - 1
    &&& part_end(path, 2, false) + 1 < part_end(path, part_end(path, 2, false) + 1, false)
}

/// The path is taken by the letter: nothing in it is put in order.
pub open spec fn is_verbatim(path: Seq<char>) -> bool {
    starts_with(path, r"\\?\"@)
}

/// The path goes on with a server and a share behind its verbatim mark.
pub open spec fn has_verbatim_share(path: Seq<char>) -> bool {
    path.len() >= 8 && path[4] == 'U' && path[5] == 'N' && path[6] == 'C' && is_separator(path[7])
}

/// Where the name of what a verbatim path starts from ends: a share, a drive, or anything else.
pub open spec fn verbatim_end(path: Seq<char>) -> int {
    if has_verbatim_share(path) {
        let server = part_end(path, 8, true);
        let share = part_end(path, server + 1, true);
        if server < path.len() && server + 1 < share {
            share
        } else {
            server
        }
    } else if drive_at(path, 4) && (path.len() == 6 || is_separator(path[6])) {
        6
    } else {
        part_end(path, 4, true)
    }
}

/// Where the components of an absolute path begin.
pub open spec fn root_end(path: Seq<char>) -> Option<int> {
    if is_verbatim(path) {
        Some(verbatim_end(path))
    } else if has_device(path) {
        Some(part_end(path, 4, false))
    } else if has_share(path) {
        Some(part_end(path, part_end(path, 2, false) + 1, false))
    } else if has_drive(path) {
        Some(2)
    } else {
        None
    }
}

fn is_taken_by_the_letter(path: &Vec<char>) -> (verbatim: bool)
    ensures
        verbatim == is_verbatim(path@),
        verbatim ==> path@.len() >= 4,
{
    proof {
        reveal_strlit(r"\\?\");
    }
    strip_start(path, r"\\?\").is_some()
}

fn end_of_verbatim(path: &Vec<char>) -> (end: usize)
    requires
        path@.len() >= 4,
    ensures
        end == verbatim_end(path@),
        end <= path@.len(),
{
    if path.len() >= 8 && path[4] == 'U' && path[5] == 'N' && path[6] == 'C' && separates(path[7]) {
        let server: usize = end_of_part(path, 8, true);
        if server == path.len() {
            return server;
        }
        let share: usize = end_of_part(path, server + 1, true);
        if server + 1 < share {
            share
        } else {
            server
        }
    } else if is_drive_at(path, 4) && (path.len() == 6 || separates(path[6])) {
        6
    } else {
        end_of_part(path, 4, true)
    }
}

fn end_of_root(path: &Vec<char>) -> (end: Option<usize>)
    ensures
        match end {
            Some(end) => root_end(path@) == Some(end as int) && end <= path@.len(),
            None => root_end(path@) is None,
        },
{
    if is_taken_by_the_letter(path) {
        return Some(end_of_verbatim(path));
    }
    if is_drive_at(path, 0) {
        return if path.len() >= 3 && separates(path[2]) {
            Some(2)
        } else {
            None
        };
    }
    if path.len() < 4 || !separates(path[0]) || !separates(path[1]) {
        return None;
    }
    if path[2] == '.' && separates(path[3]) {
        return Some(end_of_part(path, 4, false));
    }
    let server: usize = end_of_part(path, 2, false);
    if server == 2 || server >= path.len() - 1 {
        return None;
    }
    let share: usize = end_of_part(path, server + 1, false);
    if share == server + 1 {
        return None;
    }
    Some(share)
}

/// Where the first component stands: behind the separator that follows the root.
pub open spec fn first_component(path: Seq<char>, root: int) -> int {
    if 0 <= root < path.len() && is_separator(path[root]) {
        root + 1
    } else {
        root
    }
}

/// A component that leads elsewhere: the parent, or, where nothing is put in order, the directory
/// itself.
pub open spec fn leads_elsewhere(component: Seq<char>, verbatim: bool) -> bool {
    component == seq!['.', '.'] || (verbatim && component == seq!['.'])
}

/// Some component from `at` leads elsewhere.
pub open spec fn goes_elsewhere(path: Seq<char>, at: int, verbatim: bool) -> bool
    decreases path.len() - at,
{
    if at < 0 || at >= path.len() {
        false
    } else if parts_at(path[at], verbatim) {
        goes_elsewhere(path, at + 1, verbatim)
    } else {
        let end = part_end(path, at, verbatim);
        if end <= at || end > path.len() {
            false
        } else {
            leads_elsewhere(path.subrange(at, end), verbatim) || goes_elsewhere(
                path,
                end,
                verbatim,
            )
        }
    }
}

/// An absolute path without components that lead elsewhere.
pub open spec fn is_trusted_root(path: Seq<char>) -> bool {
    root_end(path) is Some && !goes_elsewhere(
        path,
        first_component(path, root_end(path)->0),
        is_verbatim(path),
    )
}

pub fn is_absolute(path: &str) -> (absolute: bool)
    ensures
        absolute == (root_end(path@) is Some),
{
    let chars = chars_of(path);
    end_of_root(&chars).is_some()
}

pub fn is_trusted_absolute_root(path: &str) -> (trusted: bool)
    ensures
        trusted == is_trusted_root(path@),
{
    let chars = chars_of(path);
    let verbatim = is_taken_by_the_letter(&chars);
    let mut at: usize = match end_of_root(&chars) {
        Some(end) => end,
        None => return false,
    };
    let ghost root = at as int;
    if at < chars.len() && separates(chars[at]) {
        at = at + 1;
    }
    let ghost start = at as int;
    while at < chars.len()
        invariant
            at <= chars.len(),
            goes_elsewhere(chars@, start, verbatim) == goes_elsewhere(
                chars@,
                at as int,
                verbatim,
            ),
            chars@ == path@,
            root_end(path@) == Some(root),
            start == first_component(path@, root),
            verbatim == is_verbatim(path@),
        decreases chars.len() - at,
    {
        if parts(chars[at], verbatim) {
            at = at + 1;
        } else {
            assert(part_end(chars@, at as int, verbatim) == part_end(chars@, at + 1, verbatim));
            let end: usize = end_of_part(&chars, at + 1, verbatim);
            let ghost component = chars@.subrange(at as int, end as int);
            let own = end - at == 1 && chars[at] == '.';
            let parent = end - at == 2 && chars[at] == '.' && chars[at + 1] == '.';
            proof {
                assert(own == (component == seq!['.'])) by {
                    assert(own ==> component =~= seq!['.']);
                    assert(component == seq!['.'] ==> component.len() == 1 && component[0] == '.');
                }
                assert(parent == (component == seq!['.', '.'])) by {
                    assert(parent ==> component =~= seq!['.', '.']);
                    assert(component == seq!['.', '.'] ==> component.len() == 2 && component[0]
                        == '.' && component[1] == '.');
                }
            }
            if parent || (verbatim && own) {
                return false;
            }
            at = end;
        }
    }
    true
}

/// The components of a verbatim path from `at`, each behind one backslash.
pub open spec fn tidied(path: Seq<char>, at: int) -> Seq<char>
    decreases path.len() - at,
{
    if at < 0 || at >= path.len() {
        Seq::empty()
    } else if path[at] == '\\' {
        tidied(path, at + 1)
    } else {
        let end = part_end(path, at, true);
        if end <= at || end > path.len() {
            Seq::empty()
        } else {
            seq!['\\'] + path.subrange(at, end) + tidied(path, end)
        }
    }
}

/// An absolute directory up to where a name in it follows. A verbatim one is written anew, with
/// one backslash before each component.
pub open spec fn opened(directory: Seq<char>) -> Seq<char> {
    if is_verbatim(directory) {
        let root = verbatim_end(directory);
        directory.take(root) + tidied(directory, first_component(directory, root)) + seq!['\\']
    } else if directory.len() > 0 && is_separator(directory.last()) {
        directory
    } else {
        directory + seq!['\\']
    }
}

fn tidy(path: &Vec<char>) -> (result: Vec<char>)
    requires
        path@.len() >= 4,
    ensures
        result@ == path@.take(verbatim_end(path@)) + tidied(
            path@,
            first_component(path@, verbatim_end(path@)),
        ),
{
    let root: usize = end_of_verbatim(path);
    let mut result: Vec<char> = slice_of(path, 0, root);
    let mut at: usize = root;
    if at < path.len() && separates(path[at]) {
        at = at + 1;
    }
    let ghost whole = path@.take(root as int) + tidied(path@, at as int);
    assert(result@ == path@.take(root as int));
    while at < path.len()
        invariant
            at <= path.len(),
            whole == result@ + tidied(path@, at as int),
        decreases path.len() - at,
    {
        if path[at] == '\\' {
            at = at + 1;
        } else {
            assert(part_end(path@, at as int, true) == part_end(path@, at + 1, true));
            let end: usize = end_of_part(path, at + 1, true);
            let component = slice_of(path, at, end);
            let ghost before = result@;
            result.push('\\');
            extend(&mut result, &component);
            proof {
                let rest = tidied(path@, end as int);
                assert(before + (seq!['\\'] + component@ + rest) == before.push('\\') + component@
                    + rest);
            }
            at = end;
        }
    }
    assert(whole == result@);
    result
}

fn path_below(directory: &str, name: &str) -> (path: String)
    ensures
        path@ == opened(directory@) + name@,
{
    let mut chars = chars_of(directory);
    if is_taken_by_the_letter(&chars) {
        chars = tidy(&chars);
        chars.push('\\');
    } else if chars.len() == 0 || !separates(chars[chars.len() - 1]) {
        chars.push('\\');
    }
    extend_text(&mut chars, name);
    string_of(&chars)
}

/// A library that may be loaded.
#[derive(Debug)]
pub struct Candidate {
    pub path: String,
    pub location: TrustedLocation,
}

/// The contents of candidates.
pub open spec fn candidate_models(candidates: Seq<Candidate>) -> Seq<
    (Seq<char>, TrustedLocation),
> {
    candidates.map_values(|candidate: Candidate| (candidate.path@, candidate.location))
}

/// The libraries in a directory of the system, where that can be trusted.
pub open spec fn library_in(directory: Option<String>, location: TrustedLocation) -> Seq<
    (Seq<char>, TrustedLocation),
> {
    match directory {
        Some(root) => if is_trusted_root(root@) {
            seq![
                (
                    opened(root@) + match location {
                        TrustedLocation::SystemDirectory => "nvml.dll"@,
                        TrustedLocation::LegacyNvsmi => r"NVIDIA Corporation\NVSMI\nvml.dll"@,
                    },
                    location,
                ),
            ]
        } else {
            Seq::empty()
        },
        None => Seq::empty(),
    }
}

/// The libraries that may be loaded: only those at an absolute path that comes from the system.
pub fn trusted_candidates(system_directory: &Option<String>, program_files: &Option<String>) -> (
candidates: Vec<Candidate>)
    ensures
        candidate_models(candidates@) == library_in(
            *system_directory,
            TrustedLocation::SystemDirectory,
        ) + library_in(*program_files, TrustedLocation::LegacyNvsmi),
{
    let mut result: Vec<Candidate> = Vec::new();
    if let Some(root) = system_directory {
        if is_trusted_absolute_root(root.as_str()) {
            result.push(
                Candidate {
                    path: path_below(root.as_str(), "nvml.dll"),
                    location: TrustedLocation::SystemDirectory,
                },
            );
        }
    }
    assert(candidate_models(result@) == library_in(
        *system_directory,
        TrustedLocation::SystemDirectory,
    ));
    let ghost first = candidate_models(result@);
    if let Some(root) = program_files {
        if is_trusted_absolute_root(root.as_str()) {
            result.push(
                Candidate {
                    path: path_below(root.as_str(), r"NVIDIA Corporation\NVSMI\nvml.dll"),
                    location: TrustedLocation::LegacyNvsmi,
                },
            );
        }
    }
    assert(candidate_models(result@) == first + library_in(
        *program_files,
        TrustedLocation::LegacyNvsmi,
    ));
    result
}

/// A path without its verbatim marks, with one kind of separator, in small letters.
pub open spec fn plain_path(path: Seq<char>) -> Seq<char>
    decreases path.len(),
{
    if is_verbatim(path) && r"\\?\"@.len() > 0 {
        plain_path(path.skip(r"\\?\"@.len() as int))
    } else {
        lower(backslashed(path))
    }
}

/// A text with backslashes for slashes.
pub open spec fn backslashed(path: Seq<char>) -> Seq<char> {
    path.map_values(
        |c: char|
            if c == '/' {
                '\\'
            } else {
                c
            },
    )
}

fn plain(path: &str) -> (result: Vec<char>)
    ensures
        result@ == plain_path(path@),
{
    proof {
        reveal_strlit(r"\\?\");
    }
    let mut chars = chars_of(path);
    let mut rest = strip_start(&chars, r"\\?\");
    while rest.is_some()
        invariant
            plain_path(path@) == plain_path(chars@),
            r"\\?\"@.len() > 0,
            match rest {
                Some(rest) => is_verbatim(chars@) && rest@ == chars@.skip(
                    r"\\?\"@.len() as int,
                ) && r"\\?\"@.len() <= chars@.len(),
                None => !is_verbatim(chars@),
            },
        decreases chars.len(),
    {
        if let Some(shorter) = rest {
            chars = shorter;
        }
        rest = strip_start(&chars, r"\\?\");
    }
    let mut turned: Vec<char> = Vec::new();
    let mut i: usize = 0;
    while i < chars.len()
        invariant
            i <= chars.len(),
            turned@ == backslashed(chars@).take(i as int),
        decreases chars.len() - i,
    {
        if chars[i] == '/' {
            turned.push('\\');
        } else {
            turned.push(chars[i]);
        }
        i = i + 1;
        assert(turned@ == backslashed(chars@).take(i as int));
    }
    assert(turned@ == backslashed(chars@));
    lowered(&turned)
}

/// Two paths name the same file.
pub fn same_windows_path(expected: &str, actual: &str) -> (same: bool)
    ensures
        same == (plain_path(expected@) == plain_path(actual@)),
{
    let left = plain(expected);
    let right = plain(actual);
    if left.len() != right.len() {
        return false;
    }
    let mut i: usize = 0;
    while i < left.len()
        invariant
            i <= left.len(),
            left.len() == right.len(),
            left@ == plain_path(expected@),
            right@ == plain_path(actual@),
            left@.take(i as int) == right@.take(i as int),
        decreases left.len() - i,
    {
        if left[i] != right[i] {
            assert(left@[i as int] != right@[i as int]);
            return false;
        }
        assert(left@.take(i + 1) == left@.take(i as int).push(left@[i as int]));
        assert(right@.take(i + 1) == right@.take(i as int).push(right@[i as int]));
        i = i + 1;
    }
    assert(left@.take(i as int) == left@);
    assert(right@.take(i as int) == right@);
    true
}

/// What the code of a failed load means.
pub open spec fn load_reason(code: u32) -> UnavailableReason {
    let word = code as int % 0x1_0000;
    if word == 2 || word == 3 || word == 126 || word == 127 || word == 193 {
        UnavailableReason::DriverLibraryMissing
    } else if word == 5 {
        UnavailableReason::PermissionDenied
    } else {
        UnavailableReason::ProviderError
    }
}

/// What the code of a failed load means.
pub fn classify_windows_load_error(code: u32) -> (reason: UnavailableReason)
    ensures
        reason == load_reason(code),
{
    match code % 0x1_0000 {
        2 | 3 | 126 | 127 | 193 => UnavailableReason::DriverLibraryMissing,
        5 => UnavailableReason::PermissionDenied,
        _ => UnavailableReason::ProviderError,
    }
}

/// What it means that the library was loaded, but did not start.
pub open spec fn start_reason(kind: NvmlErrorKind) -> UnavailableReason {
    match kind {
        NvmlErrorKind::NoPermission => UnavailableReason::PermissionDenied,
        NvmlErrorKind::OperatingSystem => UnavailableReason::PermissionDenied,
        NvmlErrorKind::DriverNotLoaded => UnavailableReason::DriverLibraryMissing,
        NvmlErrorKind::LibraryNotFound => UnavailableReason::DriverLibraryMissing,
        NvmlErrorKind::Libloading => UnavailableReason::DriverLibraryMissing,
        NvmlErrorKind::LibRmVersionMismatch => UnavailableReason::DriverLibraryMissing,
        NvmlErrorKind::Timeout => UnavailableReason::TemporarilyUnavailable,
        NvmlErrorKind::NoData => UnavailableReason::TemporarilyUnavailable,
        NvmlErrorKind::InUse => UnavailableReason::TemporarilyUnavailable,
        _ => UnavailableReason::ProviderError,
    }
}

pub fn classify_nvml_error(kind: NvmlErrorKind) -> (reason: UnavailableReason)
    ensures
        reason == start_reason(kind),
{
    match kind {
        NvmlErrorKind::NoPermission | NvmlErrorKind::OperatingSystem => {
            UnavailableReason::PermissionDenied
        },
        NvmlErrorKind::DriverNotLoaded
        | NvmlErrorKind::LibraryNotFound
        | NvmlErrorKind::Libloading
        | NvmlErrorKind::LibRmVersionMismatch => UnavailableReason::DriverLibraryMissing,
        NvmlErrorKind::Timeout | NvmlErrorKind::NoData | NvmlErrorKind::InUse => {
            UnavailableReason::TemporarilyUnavailable
        },
        _ => UnavailableReason::ProviderError,
    }
}

/// What is said of a library that could not be loaded from anywhere.
pub open spec fn failure_words(details: Seq<Seq<char>>) -> Seq<char> {
    if details.len() == 0 {
        "NVML was not found in the Windows system directory or the NVIDIA NVSMI directory under Program Files"@
    } else {
        "could not initialize NVML from a trusted Windows location: "@ + enumerated(details)
    }
}

pub open spec fn views(texts: Seq<String>) -> Seq<Seq<char>> {
    texts.map_values(|text: String| text@)
}

/// Why the library could not be loaded: what went wrong with the directories, then with the
/// libraries in them.
pub fn load_failure(
    discovery_errors: Vec<String>,
    load_failures: Vec<String>,
    load_reason: Option<UnavailableReason>,
) -> (failure: NvmlLoadFailure)
    ensures
        failure.reason == match load_reason {
            Some(reason) => reason,
            None => UnavailableReason::DriverLibraryMissing,
        },
        failure.message@ == failure_words(views(discovery_errors@) + views(load_failures@)),
{
    let ghost first = views(discovery_errors@);
    let ghost second = views(load_failures@);
    let mut details = discovery_errors;
    let mut more = load_failures;
    details.append(&mut more);
    assert(views(details@) == first + second);
    let message = if details.len() == 0 {
        owned(
            "NVML was not found in the Windows system directory or the NVIDIA NVSMI directory under Program Files",
        )
    } else {
        let list = enumerate_texts(&details);
        joined("could not initialize NVML from a trusted Windows location: ", list.as_str())
    };
    NvmlLoadFailure {
        reason: match load_reason {
            Some(reason) => reason,
            None => UnavailableReason::DriverLibraryMissing,
        },
        message,
    }
}

/// The attempts to load the library.
#[derive(Debug)]
pub struct LoadAttempts {
    pub discovery_errors: Vec<String>,
    pub load_failures: Vec<String>,
    pub reason: Option<UnavailableReason>,
}

/// The reason after one more failure: a missing permission is not forgotten.
pub open spec fn graver(
    before: Option<UnavailableReason>,
    next: UnavailableReason,
) -> Option<UnavailableReason> {
    if before != Some(UnavailableReason::PermissionDenied) || next
        == UnavailableReason::PermissionDenied {
        Some(next)
    } else {
        before
    }
}

impl LoadAttempts {
    pub fn new() -> (attempts: Self)
        ensures
            attempts.discovery_errors@.len() == 0,
            attempts.load_failures@.len() == 0,
            attempts.reason is None,
    {
        LoadAttempts { discovery_errors: Vec::new(), load_failures: Vec::new(), reason: None }
    }

    /// A directory of the system could not be found.
    pub fn no_directory(&mut self, words: String)
        ensures
            final(self).discovery_errors@ == old(self).discovery_errors@.push(words),
            final(self).load_failures@ == old(self).load_failures@,
            final(self).reason == old(self).reason,
    {
        self.discovery_errors.push(words);
    }

    fn note(&mut self, reason: UnavailableReason, text: String)
        ensures
            final(self).discovery_errors@ == old(self).discovery_errors@,
            final(self).load_failures@ == old(self).load_failures@.push(text),
            final(self).reason == graver(old(self).reason, reason),
    {
        if self.reason != Some(UnavailableReason::PermissionDenied) || reason
            == UnavailableReason::PermissionDenied {
            self.reason = Some(reason);
        }
        self.load_failures.push(text);
    }

    /// The library could not be loaded from a place.
    pub fn not_loaded(&mut self, location: TrustedLocation, code: u32, words: &str)
        ensures
            final(self).discovery_errors@ == old(self).discovery_errors@,
            views(final(self).load_failures@) == views(old(self).load_failures@).push(
                "secure NVML load from "@ + location_name(location) + " failed: "@ + words@,
            ),
            final(self).reason == graver(old(self).reason, load_reason(code)),
    {
        let text = failure_text("secure NVML load from ", location, words);
        let ghost before = self.load_failures@;
        self.note(classify_windows_load_error(code), text);
        assert(views(self.load_failures@) == views(before).push(text@));
    }

    /// The library was loaded from a place, but did not start.
    pub fn not_started(&mut self, location: TrustedLocation, kind: NvmlErrorKind, words: &str)
        ensures
            final(self).discovery_errors@ == old(self).discovery_errors@,
            views(final(self).load_failures@) == views(old(self).load_failures@).push(
                "NVML initialization from "@ + location_name(location) + " failed: "@ + words@,
            ),
            final(self).reason == graver(old(self).reason, start_reason(kind)),
    {
        let text = failure_text("NVML initialization from ", location, words);
        let ghost before = self.load_failures@;
        self.note(classify_nvml_error(kind), text);
        assert(views(self.load_failures@) == views(before).push(text@));
    }

    /// Why no attempt has succeeded.
    pub fn give_up(self) -> (failure: NvmlLoadFailure)
        ensures
            failure.reason == match self.reason {
                Some(reason) => reason,
                None => UnavailableReason::DriverLibraryMissing,
            },
            failure.message@ == failure_words(
                views(self.discovery_errors@) + views(self.load_failures@),
            ),
    {
        load_failure(self.discovery_errors, self.load_failures, self.reason)
    }
}

fn failure_text(start: &str, location: TrustedLocation, words: &str) -> (text: String)
    ensures
        text@ == start@ + location_name(location) + " failed: "@ + words@,
{
    let mut text = chars_of(start);
    extend_text(&mut text, location.description());
    extend_text(&mut text, " failed: ");
    extend_text(&mut text, words);
    string_of(&text)
}

/// What is said of a library that was loaded.
pub fn loaded_message(location: TrustedLocation) -> (text: String)
    ensures
        text@ == "NVML loaded securely from "@ + location_name(location),
{
    joined("NVML loaded securely from ", location.description())
}

/// Only absolute paths are candidates, and none that leads through a parent directory.
pub proof fn law_candidates_are_below_trusted_roots(
    system_directory: Option<String>,
    program_files: Option<String>,
)
    ensures
        ({
            let candidates = library_in(system_directory, TrustedLocation::SystemDirectory)
                + library_in(program_files, TrustedLocation::LegacyNvsmi);
            forall|i: int|
                0 <= i < candidates.len() ==> is_below_trusted(
                    #[trigger] candidates[i],
                    system_directory,
                    program_files,
                )
        }),
{
    let system = library_in(system_directory, TrustedLocation::SystemDirectory);
    let legacy = library_in(program_files, TrustedLocation::LegacyNvsmi);
    let candidates = system + legacy;
    assert forall|i: int| 0 <= i < candidates.len() implies is_below_trusted(
        #[trigger] candidates[i],
        system_directory,
        program_files,
    ) by {
        if i < system.len() {
            assert(candidates[i] == system[0]);
            lemma_starts(opened(system_directory->0@), "nvml.dll"@);
            if !is_verbatim(system_directory->0@) {
                lemma_opened(system_directory->0@, candidates[i].0);
            }
        } else {
            assert(candidates[i] == legacy[0]);
            lemma_starts(opened(program_files->0@), r"NVIDIA Corporation\NVSMI\nvml.dll"@);
            if !is_verbatim(program_files->0@) {
                lemma_opened(program_files->0@, candidates[i].0);
            }
        }
    }
}

proof fn lemma_starts(start: Seq<char>, rest: Seq<char>)
    ensures
        starts_with(start + rest, start),
{
    assert((start + rest).subrange(0, start.len() as int) == start);
}

proof fn lemma_opened(directory: Seq<char>, path: Seq<char>)
    requires
        !is_verbatim(directory),
        starts_with(path, opened(directory)),
    ensures
        starts_with(path, directory),
{
    assert forall|i: int| 0 <= i < directory.len() implies path[i] == directory[i] by {
        assert(path.subrange(0, opened(directory).len() as int)[i] == path[i]);
    }
    assert(path.subrange(0, directory.len() as int) == directory);
}

/// The candidate lies below the directory that its place names, which can be trusted.
pub open spec fn is_below_trusted(
    candidate: (Seq<char>, TrustedLocation),
    system_directory: Option<String>,
    program_files: Option<String>,
) -> bool {
    let directory = match candidate.1 {
        TrustedLocation::SystemDirectory => system_directory,
        TrustedLocation::LegacyNvsmi => program_files,
    };
    &&& directory is Some
    &&& is_trusted_root(directory->0@)
    &&& starts_with(candidate.0, opened(directory->0@))
    &&& !is_verbatim(directory->0@) ==> starts_with(candidate.0, directory->0@)
}

} // verus!
