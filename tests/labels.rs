use sworkstyle::label::{compose_label, decimal_text, rename_command, workspace_update, UpdateError};
use sworkstyle::query::{dedup_queries, query_for, window_queries, IconQuery};
use sworkstyle::tree::{NodeKind, TreeNode};

fn window(id: i64, title: Option<&str>, app_id: Option<&str>, class: Option<&str>) -> TreeNode {
    TreeNode {
        id,
        kind: NodeKind::Container,
        name: title.map(|s| s.to_string()),
        num: None,
        app_id: app_id.map(|s| s.to_string()),
        window_class: class.map(|s| s.to_string()),
        nodes: vec![],
        floating_nodes: vec![],
    }
}

fn workspace(name: Option<&str>, num: Option<i32>, children: Vec<TreeNode>) -> TreeNode {
    TreeNode {
        id: 1,
        kind: NodeKind::Workspace,
        name: name.map(|s| s.to_string()),
        num,
        app_id: None,
        window_class: None,
        nodes: children,
        floating_nodes: vec![],
    }
}

fn icons(v: &[&str]) -> Vec<String> {
    v.iter().map(|s| s.to_string()).collect()
}

fn pair(q: &IconQuery) -> (Option<String>, Option<String>) {
    (q.identity.clone(), q.title.clone())
}

#[test]
fn empty_workspace_gets_bare_index() {
    assert_eq!(compose_label(Some(3), &vec![], false), "3");
    let ws = workspace(Some("3"), Some(3), vec![]);
    assert!(window_queries(&ws, false).is_empty());
}

#[test]
fn single_window_label() {
    let ws = workspace(Some("1"), Some(1), vec![window(2, Some("Mozilla Firefox"), Some("firefox"), None)]);
    let queries = window_queries(&ws, false);
    assert_eq!(queries.len(), 1);
    assert_eq!(queries[0].identity.as_deref(), Some("firefox"));
    let label = compose_label(Some(1), &icons(&["🦊"]), false);
    assert_eq!(label, "1: \u{202D}🦊\u{202C} ");
}

#[test]
fn identical_pairs_collapse_when_deduplicating() {
    let ws = workspace(
        Some("1"),
        Some(1),
        vec![
            window(2, Some("untitled"), Some("code"), None),
            window(3, Some("untitled"), Some("code"), None),
        ],
    );
    let dedup = window_queries(&ws, true);
    assert_eq!(dedup.len(), 1);
    let plain = window_queries(&ws, false);
    assert_eq!(plain.len(), 2);
    assert_eq!(compose_label(Some(1), &icons(&["C"]), true), "1: \u{202D}C\u{202C} ");
    assert_eq!(
        compose_label(Some(1), &icons(&["C", "C"]), false),
        "1: \u{202D}C\u{202C} \u{202D}C\u{202C} "
    );
}

#[test]
fn dedup_orders_by_identity_then_title() {
    let ws = workspace(
        Some("1"),
        Some(1),
        vec![
            window(2, Some("b"), Some("zeta"), None),
            window(3, Some("x"), None, None),
            window(4, Some("a"), Some("zeta"), None),
            window(5, Some("q"), Some("alpha"), None),
            window(6, Some("b"), Some("zeta"), None),
        ],
    );
    let got: Vec<_> = window_queries(&ws, true).iter().map(pair).collect();
    let s = |x: &str| Some(x.to_string());
    assert_eq!(
        got,
        vec![(None, s("x")), (s("alpha"), s("q")), (s("zeta"), s("a")), (s("zeta"), s("b"))]
    );
}

#[test]
fn dedup_of_explicit_queries() {
    let q = |a: &str, t: &str| IconQuery { identity: Some(a.to_string()), title: Some(t.to_string()) };
    let got: Vec<_> = dedup_queries(&vec![q("b", "1"), q("a", "2"), q("b", "1"), q("ab", "0")])
        .iter()
        .map(pair)
        .collect();
    let s = |x: &str| Some(x.to_string());
    assert_eq!(got, vec![(s("a"), s("2")), (s("ab"), s("0")), (s("b"), s("1"))]);
}

#[test]
fn window_class_takes_precedence() {
    let q = query_for(&window(2, Some("t"), Some("native"), Some("Legacy")));
    assert_eq!(q.identity.as_deref(), Some("Legacy"));
    let q = query_for(&window(3, Some("t"), Some("native"), None));
    assert_eq!(q.identity.as_deref(), Some("native"));
}

#[test]
fn missing_identity_keeps_title() {
    let ws = workspace(Some("4"), Some(4), vec![window(2, Some("Settings"), None, None)]);
    let queries = window_queries(&ws, false);
    assert_eq!(queries.len(), 1);
    assert_eq!(queries[0].identity, None);
    assert_eq!(queries[0].title.as_deref(), Some("Settings"));
    assert_eq!(queries[0].lookup_name(), "");
}

#[test]
fn lookup_name_is_identity() {
    let q = query_for(&window(2, Some("t"), Some("firefox"), None));
    assert_eq!(q.lookup_name(), "firefox");
}

#[test]
fn missing_index_gives_single_space() {
    assert_eq!(compose_label(None, &icons(&["A", "B"]), false), " ");
    assert_eq!(compose_label(None, &vec![], true), " ");
    let ws = workspace(Some("old"), None, vec![]);
    assert_eq!(
        workspace_update(&ws, &vec![], false),
        Ok(Some("rename workspace \"old\" to \" \"".to_string()))
    );
}

#[test]
fn consecutive_equal_icons_squeezed() {
    assert_eq!(
        compose_label(Some(2), &icons(&["A", "A", "B", "A"]), true),
        "2: \u{202D}A\u{202C} \u{202D}B\u{202C} \u{202D}A\u{202C} "
    );
}

#[test]
fn decimal_indices() {
    assert_eq!(decimal_text(0), "0");
    assert_eq!(decimal_text(10), "10");
    assert_eq!(decimal_text(-42), "-42");
    assert_eq!(decimal_text(i32::MAX), "2147483647");
    assert_eq!(decimal_text(i32::MIN), "-2147483648");
}

#[test]
fn rename_only_when_label_differs() {
    let label = "1: \u{202D}X\u{202C} ".to_string();
    assert_eq!(rename_command(&label, &label), None);
    assert_eq!(
        rename_command(&"1".to_string(), &label),
        Some("rename workspace \"1\" to \"1: \u{202D}X\u{202C} \"".to_string())
    );
}

#[test]
fn second_synthesis_issues_no_rename() {
    let mut ws = workspace(Some("1"), Some(1), vec![window(2, Some("t"), Some("firefox"), None)]);
    let found = icons(&["F"]);
    let first = workspace_update(&ws, &found, false).unwrap();
    assert_eq!(first, Some("rename workspace \"1\" to \"1: \u{202D}F\u{202C} \"".to_string()));
    ws.name = Some(compose_label(ws.num, &found, false));
    assert_eq!(workspace_update(&ws, &found, false), Ok(None));
}

#[test]
fn workspace_without_name_fails() {
    let ws = TreeNode { id: 9, ..workspace(None, Some(1), vec![]) };
    assert_eq!(workspace_update(&ws, &vec![], false), Err(UpdateError::MissingName { id: 9 }));
}
