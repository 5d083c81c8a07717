use sworkstyle::tree::{get_windows, get_workspaces, windows, NodeKind, TreeNode};

fn node(id: i64, kind: NodeKind, name: Option<&str>, children: Vec<TreeNode>, floating: Vec<TreeNode>) -> TreeNode {
    TreeNode {
        id,
        kind,
        name: name.map(|s| s.to_string()),
        num: None,
        app_id: None,
        window_class: None,
        nodes: children,
        floating_nodes: floating,
    }
}

fn ids(nodes: &[&TreeNode]) -> Vec<i64> {
    nodes.iter().map(|n| n.id).collect()
}

#[test]
fn scratchpad_is_never_listed() {
    let scratch = node(2, NodeKind::Workspace, Some("__i3_scratch"), vec![], vec![]);
    let inner = node(3, NodeKind::Other, None, vec![scratch], vec![]);
    let ws = node(4, NodeKind::Workspace, Some("1"), vec![], vec![]);
    let output = node(5, NodeKind::Other, Some("eDP-1"), vec![inner, ws], vec![]);
    let root = node(1, NodeKind::Other, Some("root"), vec![output], vec![]);
    assert_eq!(ids(&get_workspaces(&root)), vec![4]);
}

#[test]
fn workspaces_in_traversal_order_without_nesting() {
    let nested = node(11, NodeKind::Workspace, Some("nested"), vec![], vec![]);
    let a = node(10, NodeKind::Workspace, Some("a"), vec![nested], vec![]);
    let b = node(20, NodeKind::Workspace, Some("b"), vec![], vec![]);
    let out1 = node(2, NodeKind::Other, None, vec![a], vec![]);
    let out2 = node(3, NodeKind::Other, None, vec![b], vec![]);
    let root = node(1, NodeKind::Other, None, vec![out1, out2], vec![]);
    assert_eq!(ids(&get_workspaces(&root)), vec![10, 20]);
}

#[test]
fn unnamed_workspace_is_listed() {
    let ws = node(7, NodeKind::Workspace, None, vec![], vec![]);
    let root = node(1, NodeKind::Other, None, vec![ws], vec![]);
    assert_eq!(ids(&get_workspaces(&root)), vec![7]);
}

#[test]
fn windows_depth_first_tiled_then_floating() {
    let a = node(101, NodeKind::Container, Some("a"), vec![], vec![]);
    let b = node(102, NodeKind::FloatingContainer, Some("b"), vec![], vec![]);
    let split = node(103, NodeKind::Container, None, vec![a], vec![b]);
    let c = node(104, NodeKind::Container, Some("c"), vec![], vec![]);
    let d = node(105, NodeKind::FloatingContainer, Some("d"), vec![], vec![]);
    let ws = node(100, NodeKind::Workspace, Some("1"), vec![split, c], vec![d]);
    assert_eq!(ids(&windows(&ws)), vec![101, 102, 104, 105]);
}

#[test]
fn windows_skip_empty_names_and_other_kinds() {
    let empty = node(201, NodeKind::Container, Some(""), vec![], vec![]);
    let other = node(202, NodeKind::Other, Some("bar"), vec![], vec![]);
    let named = node(203, NodeKind::Container, Some("term"), vec![], vec![]);
    let ws = node(200, NodeKind::Workspace, Some("2"), vec![empty, other, named], vec![]);
    assert_eq!(ids(&windows(&ws)), vec![203]);
}

#[test]
fn named_container_with_named_children() {
    let child = node(302, NodeKind::FloatingContainer, Some("inner"), vec![], vec![]);
    let outer = node(301, NodeKind::Container, Some("outer"), vec![], vec![child]);
    let mut found = Vec::new();
    get_windows(&outer, &mut found);
    assert_eq!(ids(&found), vec![301, 302]);
}
