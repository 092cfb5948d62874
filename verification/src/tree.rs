//! The active-node locator: a depth-first search of the window manager's
//! container tree for the focused node. At each node the direct children
//! are scanned first; only then does the search descend. The search starts
//! below the given roots, so only strict descendants of a root are found —
//! the roots themselves are never candidates.

use crate::errors::Error;
use vstd::prelude::*;

verus! {

/// A node of the window manager's layout tree: an id, a focus flag, and
/// the ordered children owned by this node.
#[derive(Debug)]
pub struct ContainerNode {
    pub id: i64,
    pub focused: bool,
    pub nodes: Vec<ContainerNode>,
}

/// Whether some node of `n`'s subtree (including `n` itself) is focused.
pub open spec fn subtree_has_focused(n: ContainerNode) -> bool
    decreases n,
{
    n.focused || exists|i: int|
        0 <= i < n.nodes@.len() && subtree_has_focused(#[trigger] n.nodes@[i])
}

/// Whether some node of `n`'s subtree (including `n` itself) is focused
/// and carries this id.
pub open spec fn subtree_focused_id(n: ContainerNode, id: i64) -> bool
    decreases n,
{
    (n.focused && n.id == id) || exists|i: int|
        0 <= i < n.nodes@.len() && subtree_focused_id(#[trigger] n.nodes@[i], id)
}

/// Whether some strict descendant of `n` is focused.
pub open spec fn desc_has_focused(n: ContainerNode) -> bool {
    exists|i: int| 0 <= i < n.nodes@.len() && subtree_has_focused(#[trigger] n.nodes@[i])
}

/// Whether some strict descendant of `n` is focused and carries this id.
pub open spec fn desc_focused_id(n: ContainerNode, id: i64) -> bool {
    exists|i: int| 0 <= i < n.nodes@.len() && subtree_focused_id(#[trigger] n.nodes@[i], id)
}

/// Whether some strict descendant of one of the roots is focused.
pub open spec fn forest_has_focused(roots: Seq<ContainerNode>) -> bool {
    exists|i: int| 0 <= i < roots.len() && desc_has_focused(#[trigger] roots[i])
}

/// Whether some strict descendant of one of the roots is focused and
/// carries this id.
pub open spec fn forest_focused_id(roots: Seq<ContainerNode>, id: i64) -> bool {
    exists|i: int| 0 <= i < roots.len() && desc_focused_id(#[trigger] roots[i], id)
}

/// Searches `n`'s strict descendants for a focused node: first the direct
/// children, then each child's own descendants in turn.
fn find_in_node(n: &ContainerNode) -> (r: Option<i64>)
    ensures
        r is Some <==> desc_has_focused(*n),
        r matches Some(id) ==> desc_focused_id(*n, id),
    decreases *n,
{
    let m = n.nodes.len();
    let mut i: usize = 0;
    while i < m
        invariant
            0 <= i <= m == n.nodes@.len(),
            forall|j: int| 0 <= j < i ==> !(#[trigger] n.nodes@[j]).focused,
        decreases m - i,
    {
        if n.nodes[i].focused {
            proof {
                assert(subtree_focused_id(n.nodes@[i as int], n.nodes@[i as int].id));
                assert(subtree_has_focused(n.nodes@[i as int]));
            }
            return Some(n.nodes[i].id);
        }
        i = i + 1;
    }
    let mut k: usize = 0;
    while k < m
        invariant
            0 <= k <= m == n.nodes@.len(),
            forall|j: int| 0 <= j < m ==> !(#[trigger] n.nodes@[j]).focused,
            forall|j: int| 0 <= j < k ==> !desc_has_focused(#[trigger] n.nodes@[j]),
        decreases m - k,
    {
        proof {
            assert(decreases_to!(*n => n.nodes@[k as int]));
        }
        let sub = find_in_node(&n.nodes[k]);
        if sub.is_some() {
            proof {
                let id = sub->0;
                assert(desc_focused_id(n.nodes@[k as int], id));
                assert(subtree_focused_id(n.nodes@[k as int], id));
                assert(subtree_has_focused(n.nodes@[k as int]));
            }
            return sub;
        }
        k = k + 1;
    }
    proof {
        assert forall|j: int| 0 <= j < n.nodes@.len() implies !subtree_has_focused(
            #[trigger] n.nodes@[j],
        ) by {
            assert(!n.nodes@[j].focused);
            assert(!desc_has_focused(n.nodes@[j]));
        }
    }
    None
}

/// Searches each root's strict descendants in turn for a focused node and
/// returns its id; `None` exactly when nothing below the roots is focused.
pub fn find_focused(roots: &Vec<ContainerNode>) -> (r: Option<i64>)
    ensures
        r is Some <==> forest_has_focused(roots@),
        r matches Some(id) ==> forest_focused_id(roots@, id),
{
    let n = roots.len();
    let mut i: usize = 0;
    while i < n
        invariant
            0 <= i <= n == roots@.len(),
            forall|j: int| 0 <= j < i ==> !desc_has_focused(#[trigger] roots@[j]),
        decreases n - i,
    {
        let sub = find_in_node(&roots[i]);
        if sub.is_some() {
            return sub;
        }
        i = i + 1;
    }
    None
}

/// The move action needs an id to relocate: this wraps the search result
/// in the fatal `NoFocusedNode` failure when nothing below the roots is
/// focused.
pub fn require_focused(roots: &Vec<ContainerNode>) -> (r: Result<i64, Error>)
    ensures
        r is Ok <==> forest_has_focused(roots@),
        r is Err ==> r == Err::<i64, Error>(Error::NoFocusedNode),
        r matches Ok(id) ==> forest_focused_id(roots@, id),
{
    match find_focused(roots) {
        Some(id) => Ok(id),
        None => Err(Error::NoFocusedNode),
    }
}

/// Law: when the forest holds exactly one focused node — below the roots
/// some node with id `id` is focused, and every focused descendant carries
/// that same id — any result meeting `find_focused`'s contract is that id,
/// whatever order siblings were visited in.
pub proof fn lemma_find_focused_unique(roots: Seq<ContainerNode>, r: Option<i64>, id: i64)
    requires
        forest_focused_id(roots, id),
        forall|other: i64| #[trigger] forest_focused_id(roots, other) ==> other == id,
        r is Some <==> forest_has_focused(roots),
        r matches Some(found) ==> forest_focused_id(roots, found),
    ensures
        r == Some(id),
{
    let i = choose|i: int| 0 <= i < roots.len() && desc_focused_id(roots[i], id);
    lemma_focused_id_implies_focused(roots[i], id);
    assert(forest_has_focused(roots));
}

/// A focused descendant with a known id is in particular a focused
/// descendant.
proof fn lemma_subtree_focused_id_implies_focused(n: ContainerNode, id: i64)
    requires
        subtree_focused_id(n, id),
    ensures
        subtree_has_focused(n),
    decreases n,
{
    if n.focused && n.id == id {
    } else {
        let i = choose|i: int| 0 <= i < n.nodes@.len() && subtree_focused_id(n.nodes@[i], id);
        lemma_subtree_focused_id_implies_focused(n.nodes@[i], id);
    }
}

proof fn lemma_focused_id_implies_focused(n: ContainerNode, id: i64)
    requires
        desc_focused_id(n, id),
    ensures
        desc_has_focused(n),
{
    let i = choose|i: int| 0 <= i < n.nodes@.len() && subtree_focused_id(n.nodes@[i], id);
    lemma_subtree_focused_id_implies_focused(n.nodes@[i], id);
}

} // verus!
