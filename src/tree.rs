//! Walking a layout-tree snapshot: its workspaces and, under each, its windows.
use vstd::prelude::*;

verus! {

/// The kind of a layout-tree node, as far as the walk needs to tell them apart.
#[derive(Clone, Copy, Debug, PartialEq, Eq, Structural)]
pub enum NodeKind {
    Workspace,
    Container,
    FloatingContainer,
    Other,
}

/// One node of a layout-tree snapshot.
#[derive(Debug)]
pub struct TreeNode {
    pub id: i64,
    pub kind: NodeKind,
    /// Workspace label for a workspace, window title for a window.
    pub name: Option<String>,
    /// Workspace index, on numbered workspaces.
    pub num: Option<i32>,
    /// Application identity reported by a native client.
    pub app_id: Option<String>,
    /// Window class reported by a legacy (X11) client.
    pub window_class: Option<String>,
    /// Tiled children, in order.
    pub nodes: Vec<TreeNode>,
    /// Floating children, in order.
    pub floating_nodes: Vec<TreeNode>,
}

/// The reserved name of the pseudo-workspace that holds hidden windows.
pub open spec fn scratchpad_name() -> Seq<char> {
    seq!['_', '_', 'i', '3', '_', 's', 'c', 'r', 'a', 't', 'c', 'h']
}

/// A node that the walk reports as a workspace.
pub open spec fn is_listed_workspace(n: TreeNode) -> bool {
    n.kind == NodeKind::Workspace && !(n.name matches Some(s) && s@ == scratchpad_name())
}

/// The workspaces found under `n`, in depth-first pre-order over tiled children;
/// the walk does not descend below a workspace.
pub open spec fn workspaces_of(n: TreeNode) -> Seq<TreeNode>
    decreases n,
{
    if is_listed_workspace(n) {
        seq![n]
    } else {
        workspaces_in(n.nodes@)
    }
}

/// The workspaces found under each node of `s`, concatenated in order.
pub open spec fn workspaces_in(s: Seq<TreeNode>) -> Seq<TreeNode>
    decreases s,
{
    if s.len() == 0 {
        Seq::empty()
    } else {
        workspaces_in(s.drop_last()) + workspaces_of(s.last())
    }
}

/// A node that contributes to its workspace's label: a tiled or floating
/// container with a non-empty name.
pub open spec fn is_window(n: TreeNode) -> bool {
    (n.kind == NodeKind::Container || n.kind == NodeKind::FloatingContainer)
        && (n.name matches Some(s) && s@.len() > 0)
}

/// The windows at or under `n`, depth first: the node itself, then its tiled
/// children, then its floating children.
pub open spec fn windows_of(n: TreeNode) -> Seq<TreeNode>
    decreases n,
{
    (if is_window(n) {
        seq![n]
    } else {
        Seq::empty()
    }) + windows_in(n.nodes@) + windows_in(n.floating_nodes@)
}

/// The windows at or under each node of `s`, concatenated in order.
pub open spec fn windows_in(s: Seq<TreeNode>) -> Seq<TreeNode>
    decreases s,
{
    if s.len() == 0 {
        Seq::empty()
    } else {
        windows_in(s.drop_last()) + windows_of(s.last())
    }
}

/// The nodes that a sequence of references points at.
pub open spec fn targets(s: Seq<&TreeNode>) -> Seq<TreeNode> {
    s.map_values(|r: &TreeNode| *r)
}

/// True when `name` is the scratchpad's reserved name.
fn is_scratchpad_name(name: &String) -> (r: bool)
    ensures
        r == (name@ == scratchpad_name()),
{
    let reserved = String::from_str("__i3_scratch");
    proof {
        reveal_strlit("__i3_scratch");
        assert(reserved@ =~= scratchpad_name());
    }
    *name == reserved
}

/// True when `n` is reported as a workspace.
fn listed_workspace(n: &TreeNode) -> (r: bool)
    ensures
        r == is_listed_workspace(*n),
{
    if n.kind != NodeKind::Workspace {
        return false;
    }
    match &n.name {
        Some(name) => !is_scratchpad_name(name),
        None => true,
    }
}

/// Appends the workspaces found under `node` to `workspaces`.
pub fn get_workspaces_recurse<'a>(node: &'a TreeNode, workspaces: &mut Vec<&'a TreeNode>)
    ensures
        targets(final(workspaces)@) == targets(old(workspaces)@) + workspaces_of(*node),
    decreases node,
{
    if listed_workspace(node) {
        workspaces.push(node);
        proof {
            assert(targets(workspaces@) =~= targets(old(workspaces)@) + seq![*node]);
        }
        return;
    }
    let mut i: usize = 0;
    while i < node.nodes.len()
        invariant
            i <= node.nodes@.len(),
            !is_listed_workspace(*node),
            targets(workspaces@) == targets(old(workspaces)@) + workspaces_in(node.nodes@.take(i as int)),
        decreases node.nodes@.len() - i,
    {
        proof {
            assert(node.nodes@.take(i as int + 1).drop_last() =~= node.nodes@.take(i as int));
        }
        get_workspaces_recurse(&node.nodes[i], workspaces);
        i += 1;
        proof {
            let t = node.nodes@.take(i as int);
            assert(t.last() == node.nodes@[i - 1]);
        }
    }
    proof {
        assert(node.nodes@.take(i as int) =~= node.nodes@);
    }
}

/// The workspaces of a snapshot, in traversal order, without the scratchpad.
pub fn get_workspaces<'a>(root: &'a TreeNode) -> (r: Vec<&'a TreeNode>)
    ensures
        targets(r@) == workspaces_of(*root),
{
    let mut r: Vec<&'a TreeNode> = Vec::new();
    get_workspaces_recurse(root, &mut r);
    proof {
        assert(targets(r@) =~= workspaces_of(*root));
    }
    r
}

/// True when `n` contributes to its workspace's label.
fn window_node(n: &TreeNode) -> (r: bool)
    ensures
        r == is_window(*n),
{
    if n.kind != NodeKind::Container && n.kind != NodeKind::FloatingContainer {
        return false;
    }
    match &n.name {
        Some(name) => !name.as_str().is_empty(),
        None => false,
    }
}

/// Appends the windows at or under `node` to `windows`, depth first, tiled
/// children before floating ones at every level.
pub fn get_windows<'a>(node: &'a TreeNode, windows: &mut Vec<&'a TreeNode>)
    ensures
        targets(final(windows)@) == targets(old(windows)@) + windows_of(*node),
    decreases node,
{
    let ghost own: Seq<TreeNode> = if is_window(*node) {
        seq![*node]
    } else {
        Seq::empty()
    };
    if window_node(node) {
        windows.push(node);
    }
    proof {
        assert(targets(windows@) =~= targets(old(windows)@) + own);
    }
    let ghost start = targets(windows@);
    let mut i: usize = 0;
    while i < node.nodes.len()
        invariant
            i <= node.nodes@.len(),
            targets(windows@) == start + windows_in(node.nodes@.take(i as int)),
        decreases node.nodes@.len() - i,
    {
        proof {
            assert(node.nodes@.take(i as int + 1).drop_last() =~= node.nodes@.take(i as int));
        }
        get_windows(&node.nodes[i], windows);
        i += 1;
        proof {
            assert(node.nodes@.take(i as int).last() == node.nodes@[i - 1]);
        }
    }
    proof {
        assert(node.nodes@.take(i as int) =~= node.nodes@);
    }
    let ghost middle = targets(windows@);
    let mut j: usize = 0;
    while j < node.floating_nodes.len()
        invariant
            j <= node.floating_nodes@.len(),
            targets(windows@) == middle + windows_in(node.floating_nodes@.take(j as int)),
        decreases node.floating_nodes@.len() - j,
    {
        proof {
            assert(node.floating_nodes@.take(j as int + 1).drop_last()
                =~= node.floating_nodes@.take(j as int));
        }
        get_windows(&node.floating_nodes[j], windows);
        j += 1;
        proof {
            assert(node.floating_nodes@.take(j as int).last() == node.floating_nodes@[j - 1]);
        }
    }
    proof {
        assert(node.floating_nodes@.take(j as int) =~= node.floating_nodes@);
        assert(targets(windows@) =~= targets(old(windows)@) + windows_of(*node));
    }
}

/// The windows of a workspace, in traversal order.
pub fn windows(workspace: &TreeNode) -> (r: Vec<&TreeNode>)
    ensures
        targets(r@) == windows_of(*workspace),
{
    let mut r: Vec<&TreeNode> = Vec::new();
    get_windows(workspace, &mut r);
    proof {
        assert(targets(r@) =~= windows_of(*workspace));
    }
    r
}

/// Every node at or under `n`, depth first: the node, then its tiled
/// children's subtrees, then its floating children's subtrees.
pub open spec fn subtree_of(n: TreeNode) -> Seq<TreeNode>
    decreases n,
{
    seq![n] + subtree_in(n.nodes@) + subtree_in(n.floating_nodes@)
}

/// The subtrees of each node of `s`, concatenated in order.
pub open spec fn subtree_in(s: Seq<TreeNode>) -> Seq<TreeNode>
    decreases s,
{
    if s.len() == 0 {
        Seq::empty()
    } else {
        subtree_in(s.drop_last()) + subtree_of(s.last())
    }
}

/// The windows of a node are exactly the named tiled and floating containers of
/// its depth-first traversal, in that order, however tiled and floating
/// containers are nested.
pub proof fn lemma_windows_are_named_containers(n: TreeNode)
    ensures
        windows_of(n) == subtree_of(n).filter(|m: TreeNode| is_window(m)),
    decreases n,
{
    let p = |m: TreeNode| is_window(m);
    lemma_windows_in_filter(n.nodes@);
    lemma_windows_in_filter(n.floating_nodes@);
    let a = seq![n];
    let b = subtree_in(n.nodes@);
    let c = subtree_in(n.floating_nodes@);
    Seq::filter_distributes_over_add(a + b, c, p);
    Seq::filter_distributes_over_add(a, b, p);
    reveal_with_fuel(Seq::filter, 2);
    assert(a.drop_last() =~= Seq::<TreeNode>::empty());
    if is_window(n) {
        assert(a.filter(p) =~= seq![n]);
    } else {
        assert(a.filter(p) =~= Seq::<TreeNode>::empty());
    }
}

/// The sequence form of `lemma_windows_are_named_containers`.
pub proof fn lemma_windows_in_filter(s: Seq<TreeNode>)
    ensures
        windows_in(s) == subtree_in(s).filter(|m: TreeNode| is_window(m)),
    decreases s,
{
    let p = |m: TreeNode| is_window(m);
    if s.len() == 0 {
        reveal_with_fuel(Seq::filter, 1);
        assert(subtree_in(s).filter(p) =~= Seq::<TreeNode>::empty());
    } else {
        lemma_windows_in_filter(s.drop_last());
        lemma_windows_are_named_containers(s.last());
        Seq::filter_distributes_over_add(subtree_in(s.drop_last()), subtree_of(s.last()), p);
    }
}

/// However deep it lies, the scratchpad is never reported as a workspace: every
/// node reported is a workspace not named with the reserved name.
pub proof fn lemma_workspaces_exclude_scratchpad(n: TreeNode)
    ensures
        forall|i: int|
            0 <= i < workspaces_of(n).len() ==> {
                let w = #[trigger] workspaces_of(n)[i];
                &&& w.kind == NodeKind::Workspace
                &&& !(w.name matches Some(s) && s@ == scratchpad_name())
            },
    decreases n,
{
    if !is_listed_workspace(n) {
        lemma_workspaces_in_exclude_scratchpad(n.nodes@);
    }
    assert forall|i: int| 0 <= i < workspaces_of(n).len() implies is_listed_workspace(
        #[trigger] workspaces_of(n)[i],
    ) by {
        if is_listed_workspace(n) {
            assert(workspaces_of(n)[i] == n);
        } else {
            assert(workspaces_of(n) == workspaces_in(n.nodes@));
            assert(is_listed_workspace(workspaces_in(n.nodes@)[i]));
        }
    }
}

/// The sequence form of `lemma_workspaces_exclude_scratchpad`.
pub proof fn lemma_workspaces_in_exclude_scratchpad(s: Seq<TreeNode>)
    ensures
        forall|i: int|
            0 <= i < workspaces_in(s).len() ==> is_listed_workspace(
                #[trigger] workspaces_in(s)[i],
            ),
    decreases s,
{
    if s.len() > 0 {
        lemma_workspaces_in_exclude_scratchpad(s.drop_last());
        lemma_workspaces_exclude_scratchpad(s.last());
        let a = workspaces_in(s.drop_last());
        let b = workspaces_of(s.last());
        assert forall|i: int| 0 <= i < workspaces_in(s).len() implies is_listed_workspace(
            #[trigger] workspaces_in(s)[i],
        ) by {
            if i < a.len() {
                assert(workspaces_in(s)[i] == a[i]);
            } else {
                assert(workspaces_in(s)[i] == b[i - a.len()]);
            }
        }
    }
}

} // verus!
