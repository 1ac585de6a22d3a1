//! What a path adds to a root that it lies below.
use crate::providers::linux::path::{
    component_end, component_text, components, is_idle, lies_below, rest_of, DOT, SLASH,
};
use vstd::prelude::*;

verus! {

proof fn lemma_end(path: Seq<u8>, at: int)
    requires
        0 <= at <= path.len(),
    ensures
        at <= component_end(path, at) <= path.len(),
        forall|i: int| at <= i < component_end(path, at) ==> #[trigger] path[i] != SLASH,
        component_end(path, at) < path.len() ==> path[component_end(path, at)] == SLASH,
    decreases path.len() - at,
{
    if at < path.len() && path[at] != SLASH {
        lemma_end(path, at + 1);
    }
}

proof fn lemma_same_end(root: Seq<u8>, tail: Seq<u8>, at: int)
    requires
        0 <= at <= root.len(),
        tail.len() > 0,
        tail[0] == SLASH,
    ensures
        component_end(root + tail, at) == component_end(root, at),
    decreases root.len() - at,
{
    let path = root + tail;
    if at < root.len() {
        assert(path[at] == root[at]);
        if root[at] != SLASH {
            lemma_same_end(root, tail, at + 1);
        }
    } else {
        assert(path[at] == tail[0]);
    }
}

proof fn lemma_components(root: Seq<u8>, tail: Seq<u8>, at: int)
    requires
        0 <= at <= root.len(),
        tail.len() > 0,
        tail[0] == SLASH,
    ensures
        components(root + tail, at) == components(root, at) + components(
            root + tail,
            root.len() as int,
        ),
        forall|i: int|
            0 <= i < components(root, at).len() ==> at <= (#[trigger] components(root, at)[i]).0
                <= components(root, at)[i].1 <= root.len(),
    decreases root.len() - at,
{
    let path = root + tail;
    let more = components(path, root.len() as int);
    if at == root.len() {
        assert(components(root, at) + more =~= more);
    } else {
        assert(path[at] == root[at]);
        if root[at] == SLASH {
            lemma_components(root, tail, at + 1);
        } else {
            lemma_same_end(root, tail, at);
            lemma_end(root, at);
            let end = component_end(root, at);
            if end > at {
                lemma_components(root, tail, end);
                if !is_idle(root, at, end) {
                    assert(seq![(at, end)] + (components(root, end) + more) =~= seq![(at, end)]
                        + components(root, end) + more);
                }
            }
        }
    }
}

/// A file below a root is told by what follows the root and a slash.
pub proof fn law_a_path_is_its_root_and_the_rest(root: Seq<u8>, name: Seq<u8>)
    requires
        root.len() > 0,
        name.len() > 0,
        forall|i: int| 0 <= i < name.len() ==> #[trigger] name[i] != 47,
        name != seq![46u8],
    ensures
        lies_below(root + seq![47u8] + name, root),
        rest_of(root + seq![47u8] + name, root) == name,
{
    let tail = seq![47u8] + name;
    let path = root + tail;
    assert(root + seq![47u8] + name =~= path);
    assert(tail[0] == SLASH);
    lemma_components(root, tail, 0);
    let start = root.len() + 1;
    let end = path.len() as int;
    assert(path[root.len() as int] == SLASH);
    assert forall|i: int| start <= i < end implies #[trigger] path[i] != SLASH by {
        assert(path[i] == name[i - start]);
    }
    lemma_end(path, start as int);
    assert(component_end(path, start as int) == end) by {
        let stop = component_end(path, start as int);
        if stop < end {
            assert(path[stop] == SLASH);
        }
    }
    assert(!is_idle(path, start as int, end)) by {
        if name.len() == 1 && name[0] == DOT {
            assert(name =~= seq![46u8]);
        }
        assert(path[start as int] == name[0]);
    }
    assert(components(path, end) =~= Seq::<(int, int)>::empty());
    assert(path[start as int] == name[0]);
    assert(components(path, start as int) =~= seq![(start as int, end)]);
    assert(components(path, root.len() as int) == components(path, start as int));
    let outer = components(root, 0);
    let inner = components(path, 0);
    assert(inner =~= outer.push((start as int, end)));
    assert forall|i: int| 0 <= i < outer.len() implies #[trigger] component_text(path, inner[i])
        == component_text(root, outer[i]) by {
        assert(inner[i] == outer[i]);
        assert(path.subrange(outer[i].0, outer[i].1) =~= root.subrange(outer[i].0, outer[i].1));
    }
    assert(path[0] == root[0]);
    assert(path.subrange(start as int, end) =~= name);
}

/// A path lies below itself and adds nothing to itself.
pub proof fn law_a_path_adds_nothing_to_itself(path: Seq<u8>)
    ensures
        lies_below(path, path),
        rest_of(path, path).len() == 0,
{
}

/// A path that starts at the root of all directories lies below none that does not.
pub proof fn law_rooted_paths_lie_below_rooted_ones(path: Seq<u8>, root: Seq<u8>)
    requires
        lies_below(path, root),
    ensures
        path.len() > 0 && path[0] == 47 <==> root.len() > 0 && root[0] == 47,
{
}

} // verus!
