//! Which paths lie below a directory, component by component.
use crate::providers::linux::metric::FaultKind;
use vstd::prelude::*;

verus! {

/// The byte between the components of a path.
pub const SLASH: u8 = 47;

/// The component that stands for the directory itself.
pub const DOT: u8 = 46;

/// The position of the first slash from `at`, the end where there is none.
pub open spec fn component_end(path: Seq<u8>, at: int) -> int
    decreases path.len() - at,
{
    if at < 0 || at >= path.len() || path[at] == SLASH {
        at
    } else {
        component_end(path, at + 1)
    }
}

/// A component that changes nothing: a dot that is not the start of the path.
pub open spec fn is_idle(path: Seq<u8>, at: int, end: int) -> bool {
    at > 0 && end == at + 1 && path[at] == DOT
}

/// From where to where the components from `at` go.
pub open spec fn components(path: Seq<u8>, at: int) -> Seq<(int, int)>
    decreases path.len() - at,
{
    if at < 0 || at >= path.len() {
        Seq::empty()
    } else if path[at] == SLASH {
        components(path, at + 1)
    } else {
        let end = component_end(path, at);
        if end <= at || end > path.len() {
            Seq::empty()
        } else if is_idle(path, at, end) {
            components(path, end)
        } else {
            seq![(at, end)] + components(path, end)
        }
    }
}

/// The path starts at the root of all directories.
pub open spec fn is_rooted(path: Seq<u8>) -> bool {
    path.len() > 0 && path[0] == SLASH
}

/// The text of a component.
pub open spec fn component_text(path: Seq<u8>, component: (int, int)) -> Seq<u8> {
    path.subrange(component.0, component.1)
}

/// The components of the root are the first ones of the path.
pub open spec fn lies_below(path: Seq<u8>, root: Seq<u8>) -> bool {
    let inner = components(path, 0);
    let outer = components(root, 0);
    &&& is_rooted(path) == is_rooted(root)
    &&& outer.len() <= inner.len()
    &&& forall|i: int|
        0 <= i < outer.len() ==> #[trigger] component_text(path, inner[i]) == component_text(
            root,
            outer[i],
        )
}

/// What a path adds to a root: from the first component behind the root's to the last one.
pub open spec fn rest_of(path: Seq<u8>, root: Seq<u8>) -> Seq<u8> {
    let inner = components(path, 0);
    let outer = components(root, 0);
    if outer.len() < inner.len() {
        path.subrange(inner[outer.len() as int].0, inner.last().1)
    } else {
        Seq::empty()
    }
}

spec fn range_models(ranges: Seq<(usize, usize)>) -> Seq<(int, int)> {
    ranges.map_values(|range: (usize, usize)| (range.0 as int, range.1 as int))
}

/// The components lie in the path, one behind the other.
spec fn in_path(ranges: Seq<(usize, usize)>, at: int) -> bool {
    &&& forall|i: int| 0 <= i < ranges.len() ==> (#[trigger] ranges[i]).0 <= ranges[i].1 <= at
    &&& forall|i: int, j: int|
        0 <= i < j < ranges.len() ==> (#[trigger] ranges[i]).1 <= (#[trigger] ranges[j]).0
}

fn split(path: &Vec<u8>) -> (ranges: Vec<(usize, usize)>)
    ensures
        range_models(ranges@) == components(path@, 0),
        in_path(ranges@, path@.len() as int),
{
    let mut ranges: Vec<(usize, usize)> = Vec::new();
    let mut at: usize = 0;
    assert(range_models(ranges@) + components(path@, 0) == components(path@, 0));
    while at < path.len()
        invariant
            at <= path.len(),
            components(path@, 0) == range_models(ranges@) + components(path@, at as int),
            in_path(ranges@, at as int),
        decreases path.len() - at,
    {
        if path[at] == SLASH {
            at = at + 1;
        } else {
            let start: usize = at;
            while at < path.len() && path[at] != SLASH
                invariant
                    start <= at <= path.len(),
                    component_end(path@, start as int) == component_end(path@, at as int),
                decreases path.len() - at,
            {
                at = at + 1;
            }
            if start == 0 || at != start + 1 || path[start] != DOT {
                let ghost before = range_models(ranges@);
                ranges.push((start, at));
                proof {
                    let rest = components(path@, at as int);
                    let range = (start as int, at as int);
                    assert(range_models(ranges@) == before.push(range));
                    assert(before + (seq![range] + rest) == before.push(range) + rest);
                }
            }
        }
    }
    assert(range_models(ranges@) + Seq::<(int, int)>::empty() == range_models(ranges@));
    ranges
}

fn same_part(path: &Vec<u8>, a: (usize, usize), root: &Vec<u8>, b: (usize, usize)) -> (same: bool)
    requires
        a.0 <= a.1 <= path@.len(),
        b.0 <= b.1 <= root@.len(),
    ensures
        same == (path@.subrange(a.0 as int, a.1 as int) == root@.subrange(b.0 as int, b.1 as int)),
{
    let ghost left = path@.subrange(a.0 as int, a.1 as int);
    let ghost right = root@.subrange(b.0 as int, b.1 as int);
    let n: usize = a.1 - a.0;
    if n != b.1 - b.0 {
        assert(left.len() != right.len());
        return false;
    }
    let mut i: usize = 0;
    while i < n
        invariant
            i <= n,
            n == a.1 - a.0 == b.1 - b.0,
            a.0 <= a.1 <= path@.len(),
            b.0 <= b.1 <= root@.len(),
            left == path@.subrange(a.0 as int, a.1 as int),
            right == root@.subrange(b.0 as int, b.1 as int),
            forall|k: int| 0 <= k < i ==> #[trigger] left[k] == right[k],
        decreases n - i,
    {
        if path[a.0 + i] != root[b.0 + i] {
            assert(left[i as int] != right[i as int]);
            return false;
        }
        i = i + 1;
    }
    assert(left =~= right);
    true
}

/// What a path adds to the root that it lies below; nothing where it lies elsewhere.
pub fn rest_below(path: &Vec<u8>, root: &Vec<u8>) -> (rest: Option<Vec<u8>>)
    ensures
        match rest {
            Some(rest) => lies_below(path@, root@) && rest@ == rest_of(path@, root@),
            None => !lies_below(path@, root@),
        },
{
    let inner = split(path);
    let outer = split(root);
    let ghost parts = components(path@, 0);
    let ghost roots = components(root@, 0);
    if (path.len() > 0 && path[0] == SLASH) != (root.len() > 0 && root[0] == SLASH) || outer.len()
        > inner.len() {
        return None;
    }
    let mut i: usize = 0;
    while i < outer.len()
        invariant
            i <= outer.len() <= inner.len(),
            is_rooted(path@) == is_rooted(root@),
            parts == components(path@, 0),
            parts == range_models(inner@),
            roots == components(root@, 0),
            roots == range_models(outer@),
            in_path(inner@, path@.len() as int),
            in_path(outer@, root@.len() as int),
            forall|k: int|
                0 <= k < i ==> #[trigger] component_text(path@, parts[k]) == component_text(
                    root@,
                    roots[k],
                ),
        decreases outer.len() - i,
    {
        if !same_part(path, inner[i], root, outer[i]) {
            assert(component_text(path@, parts[i as int]) != component_text(
                root@,
                roots[i as int],
            ));
            return None;
        }
        i = i + 1;
    }
    let mut rest: Vec<u8> = Vec::new();
    if outer.len() < inner.len() {
        let from: usize = inner[outer.len()].0;
        let to: usize = inner[inner.len() - 1].1;
        let mut at: usize = from;
        while at < to
            invariant
                from <= at <= to <= path@.len(),
                rest@ == path@.subrange(from as int, at as int),
            decreases to - at,
        {
            rest.push(path[at]);
            at = at + 1;
            assert(rest@ == path@.subrange(from as int, at as int));
        }
    }
    assert(rest@ == rest_of(path@, root@));
    Some(rest)
}

/// Whether a path lies below a root.
pub fn is_below(path: &Vec<u8>, root: &Vec<u8>) -> (below: bool)
    ensures
        below == lies_below(path@, root@),
{
    rest_below(path, root).is_some()
}

/// Refuses an attribute that resolves to a place outside the directory of its device.
pub fn check_within(path: &Vec<u8>, device: &Vec<u8>) -> (result: Result<(), FaultKind>)
    ensures
        match result {
            Ok(_) => lies_below(path@, device@),
            Err(kind) => !lies_below(path@, device@) && kind == FaultKind::PermissionDenied,
        },
{
    if is_below(path, device) {
        Ok(())
    } else {
        Err(FaultKind::PermissionDenied)
    }
}

} // verus!
