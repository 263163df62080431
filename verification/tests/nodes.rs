use indexmap::IndexMap;
use piow::config::Config;
use piow::nodes::{
    construct_rename_cmd, extract_identifiers, parse_representation, AppIds, WorkspaceNode,
};

fn config(icons: &[(&str, &str)]) -> Config {
    let mut map = IndexMap::new();
    for (k, v) in icons {
        map.insert(k.to_string(), v.to_string());
    }
    Config {
        default_icon: "?".to_string(),
        format_str: "%n: %i".to_string(),
        icon_separator: " ".to_string(),
        icons: map,
    }
}

fn node() -> WorkspaceNode {
    WorkspaceNode {
        name: None,
        num: None,
        nodes: Vec::new(),
        floating_nodes: Vec::new(),
        app_id: None,
        window_class: None,
        representation: None,
    }
}

fn window(app_id: &str) -> WorkspaceNode {
    let mut n = node();
    n.app_id = Some(app_id.to_string());
    n
}

fn x_window(class: &str) -> WorkspaceNode {
    let mut n = node();
    n.window_class = Some(class.to_string());
    n
}

fn container(nodes: Vec<WorkspaceNode>) -> WorkspaceNode {
    let mut n = node();
    n.nodes = nodes;
    n
}

fn workspace(name: &str, num: i32, nodes: Vec<WorkspaceNode>) -> WorkspaceNode {
    let mut n = node();
    n.name = Some(name.to_string());
    n.num = Some(num);
    n.nodes = nodes;
    n
}

fn ids(items: &[&str]) -> AppIds {
    AppIds::new(items.iter().map(|s| s.to_string()).collect())
}

#[test]
fn scenario_firefox_workspace() {
    let cfg = config(&[("firefox", "🦊")]);
    let ws = workspace("2", 2, vec![window("firefox")]);
    assert_eq!(AppIds::from(&ws).map(&cfg), "🦊");
    assert_eq!(cfg.format("2".to_string(), "🦊".to_string()), "2: 🦊");
    assert_eq!(
        construct_rename_cmd(&ws, &cfg),
        Some(("2".to_string(), "rename workspace '2' to '2: 🦊'".to_string()))
    );
}

#[test]
fn scenario_unknown_identifier_gets_default_icon() {
    let cfg = config(&[("firefox", "🦊")]);
    let ws = workspace("2", 2, vec![window("unknownapp")]);
    assert_eq!(AppIds::from(&ws).map(&cfg), "?");
    assert_eq!(
        construct_rename_cmd(&ws, &cfg),
        Some(("2".to_string(), "rename workspace '2' to '2: ?'".to_string()))
    );
}

#[test]
fn scenario_same_icon_is_shown_once() {
    let cfg = config(&[("firefox", "🦊"), ("librewolf", "🦊")]);
    assert_eq!(ids(&["firefox", "librewolf"]).map(&cfg), "🦊");
    let ws = workspace("1", 1, vec![window("firefox"), window("librewolf"), window("firefox")]);
    assert_eq!(AppIds::from(&ws).map(&cfg), "🦊");
}

#[test]
fn extract_from_empty_node_is_empty() {
    assert_eq!(extract_identifiers(&node()), Vec::<String>::new());
    assert_eq!(AppIds::from(&node()).len(), 0);
}

#[test]
fn extract_lists_each_window_once() {
    let ws = workspace("1", 1, vec![window("firefox"), window("alacritty")]);
    assert_eq!(extract_identifiers(&ws), vec!["firefox", "alacritty"]);
}

#[test]
fn extract_walks_depth_first_through_containers() {
    let ws = workspace(
        "1",
        1,
        vec![
            container(vec![window("a"), container(vec![window("b"), window("c")])]),
            window("d"),
        ],
    );
    assert_eq!(extract_identifiers(&ws), vec!["a", "b", "c", "d"]);
}

#[test]
fn extract_lists_window_class_of_children() {
    let ws = workspace("1", 1, vec![x_window("Gimp"), window("firefox")]);
    assert_eq!(extract_identifiers(&ws), vec!["Gimp", "firefox"]);
}

#[test]
fn extract_lists_both_identifiers_of_one_node() {
    let mut both = window("code");
    both.window_class = Some("Code".to_string());
    let ws = workspace("1", 1, vec![both]);
    assert_eq!(extract_identifiers(&ws), vec!["code", "Code"]);
}

#[test]
fn extract_puts_own_identifier_after_children() {
    let mut c = container(vec![window("inner")]);
    c.app_id = Some("outer".to_string());
    c.window_class = Some("Outer".to_string());
    let ws = workspace("1", 1, vec![c]);
    assert_eq!(extract_identifiers(&ws), vec!["inner", "outer", "Outer"]);
}

#[test]
fn extract_lists_own_identifier_of_workspace_last() {
    let mut ws = workspace("1", 1, vec![window("a")]);
    ws.app_id = Some("self".to_string());
    assert_eq!(extract_identifiers(&ws), vec!["a", "self"]);
}

#[test]
fn extract_ignores_window_class_of_workspace_itself() {
    let mut ws = workspace("1", 1, vec![window("a")]);
    ws.window_class = Some("Top".to_string());
    assert_eq!(extract_identifiers(&ws), vec!["a"]);
}

#[test]
fn extract_lists_floating_nodes_after_tiling_nodes() {
    let mut ws = workspace("1", 1, vec![window("tiled")]);
    ws.app_id = Some("self".to_string());
    ws.floating_nodes = vec![window("float1"), container(vec![window("float2")])];
    assert_eq!(extract_identifiers(&ws), vec!["tiled", "self", "float1", "float2"]);
}

#[test]
fn extract_ignores_window_class_of_floating_node_itself() {
    let mut ws = workspace("1", 1, vec![]);
    ws.floating_nodes = vec![x_window("Float"), container(vec![x_window("Inner")])];
    assert_eq!(extract_identifiers(&ws), vec!["Inner"]);
}

#[test]
fn extract_does_not_walk_floating_nodes_of_children() {
    let mut c = container(vec![window("a")]);
    c.floating_nodes = vec![window("hidden")];
    let ws = workspace("1", 1, vec![c]);
    assert_eq!(extract_identifiers(&ws), vec!["a"]);
}

#[test]
fn extract_keeps_duplicates() {
    let ws = workspace("1", 1, vec![window("a"), window("a"), window("b"), window("a")]);
    assert_eq!(extract_identifiers(&ws), vec!["a", "a", "b", "a"]);
    assert_eq!(AppIds::from(&ws).len(), 4);
}

#[test]
fn extract_count_is_number_of_carrying_nodes() {
    let mut ws = workspace(
        "1",
        1,
        vec![
            container(vec![window("a"), x_window("B"), node()]),
            window("c"),
            container(vec![]),
        ],
    );
    ws.floating_nodes = vec![window("d"), container(vec![x_window("E")])];
    assert_eq!(extract_identifiers(&ws).len(), 5);
}

#[test]
fn extract_falls_back_to_representation() {
    let mut ws = workspace("1", 1, vec![node(), container(vec![node()])]);
    ws.representation = Some("H[firefox V[Alacritty \"code\"]]".to_string());
    assert_eq!(extract_identifiers(&ws), vec!["firefox", "Alacritty", "code"]);
}

#[test]
fn extract_prefers_structured_identifiers() {
    let mut ws = workspace("1", 1, vec![window("firefox")]);
    ws.representation = Some("H[other]".to_string());
    assert_eq!(extract_identifiers(&ws), vec!["firefox"]);
}

#[test]
fn extract_without_identifiers_and_representation_is_empty() {
    let ws = workspace("1", 1, vec![node(), container(vec![node()])]);
    assert_eq!(extract_identifiers(&ws), Vec::<String>::new());
}

#[test]
fn parse_representation_strips_brackets_and_quotes() {
    assert_eq!(parse_representation("H[a b]"), vec!["a", "b"]);
    assert_eq!(parse_representation("V[H[a b] T[c]]"), vec!["a", "b", "Tc"]);
    assert_eq!(parse_representation("\"a b\""), vec!["a", "b"]);
    assert_eq!(parse_representation("a"), vec!["a"]);
}

#[test]
fn parse_representation_keeps_empty_pieces() {
    assert_eq!(parse_representation(""), vec![""]);
    assert_eq!(parse_representation("H[]"), vec![""]);
    assert_eq!(parse_representation("a  b"), vec!["a", "", "b"]);
}

#[test]
fn parse_representation_strips_one_kind_after_the_other() {
    assert_eq!(parse_representation("HH[[x"), vec!["Hx"]);
    assert_eq!(parse_representation("HV[[x"), vec!["Hx"]);
    assert_eq!(parse_representation("VH[[x"), vec!["x"]);
}

#[test]
fn parse_representation_agrees_with_chained_replace() {
    for r in ["H[V[a b] S[c \"d e\"]]", "[[]]", "H V [ ]", "T[H[x]]"] {
        let expected: Vec<String> = r
            .replace("H[", "")
            .replace("V[", "")
            .replace("[", "")
            .replace("]", "")
            .replace("\"", "")
            .split(' ')
            .map(String::from)
            .collect();
        assert_eq!(parse_representation(r), expected);
    }
}

#[test]
fn app_ids_keeps_given_identifiers() {
    let a = ids(&["b", "a", "b"]);
    assert_eq!(a.len(), 3);
    assert_eq!(a.ids(), vec!["b", "a", "b"]);
}

#[test]
fn map_of_no_identifiers_is_empty() {
    assert_eq!(ids(&[]).map(&config(&[("firefox", "🦊")])), "");
    assert_eq!(ids(&[]).map(&config(&[])), "");
}

#[test]
fn map_sorts_icons_and_joins_with_separator() {
    let mut cfg = config(&[("firefox", "c"), ("alacritty", "a"), ("code", "b")]);
    cfg.icon_separator = ", ".to_string();
    assert_eq!(ids(&["firefox", "alacritty", "code"]).map(&cfg), "a, b, c");
}

#[test]
fn map_does_not_depend_on_order_of_identifiers() {
    let cfg = config(&[("firefox", "🦊"), ("alacritty", "T")]);
    let a = ids(&["firefox", "unknown", "alacritty", "firefox"]).map(&cfg);
    let b = ids(&["alacritty", "firefox", "firefox", "unknown"]).map(&cfg);
    let c = ids(&["unknown", "firefox", "alacritty", "firefox"]).map(&cfg);
    assert_eq!(a, "? T 🦊");
    assert_eq!(b, a);
    assert_eq!(c, a);
}

#[test]
fn map_lowercases_identifiers() {
    let cfg = config(&[("firefox", "🦊")]);
    assert_eq!(ids(&["Firefox"]).map(&cfg), "🦊");
    assert_eq!(ids(&["FIREFOX", "firefox"]).map(&cfg), "🦊");
}

#[test]
fn map_ignores_case_of_keys() {
    let mut map = IndexMap::new();
    map.insert("Firefox".to_string(), "F".to_string());
    let cfg = Config {
        default_icon: "?".to_string(),
        format_str: "%n: %i".to_string(),
        icon_separator: " ".to_string(),
        icons: map,
    };
    assert_eq!(ids(&["firefox"]).map(&cfg), "F");
    assert_eq!(ids(&["FIREFOX", "firefox", "Firefox"]).map(&cfg), "F");
}

#[test]
fn map_of_one_unmatched_identifier_is_default_icon_exactly() {
    let cfg = config(&[("Firefox", "🦊"), ("ALACRITTY", "T")]);
    assert_eq!(ids(&["chromium"]).map(&cfg), "?");
    assert_eq!(ids(&["Fire-Fox"]).map(&cfg), "?");
}

#[test]
fn unmapped_ignores_case_of_keys() {
    let cfg = config(&[("Firefox", "🦊")]);
    assert_eq!(ids(&["firefox", "FIREFOX", "fox"]).unmapped(&cfg), vec!["fox"]);
}

#[test]
fn app_ids_can_be_shown_for_debugging() {
    assert_eq!(format!("{:?}", ids(&["a"])), "AppIds { inner: [\"a\"] }");
}

#[test]
fn map_shows_default_icon_once_for_several_unknown() {
    let cfg = config(&[("firefox", "🦊")]);
    assert_eq!(ids(&["x", "y", "z"]).map(&cfg), "?");
}

#[test]
fn unmapped_lists_identifiers_without_icon() {
    let cfg = config(&[("firefox", "🦊")]);
    let a = ids(&["x", "Firefox", "y", "x"]);
    assert_eq!(a.unmapped(&cfg), vec!["x", "y", "x"]);
    assert_eq!(ids(&["firefox"]).unmapped(&cfg), Vec::<String>::new());
}

#[test]
fn rename_cmd_is_none_without_name() {
    let cfg = config(&[("firefox", "🦊")]);
    let mut ws = workspace("2", 2, vec![window("firefox")]);
    ws.name = None;
    assert_eq!(construct_rename_cmd(&ws, &cfg), None);
}

#[test]
fn rename_cmd_is_none_without_number() {
    let cfg = config(&[("firefox", "🦊")]);
    let mut ws = workspace("2", 2, vec![window("firefox")]);
    ws.num = None;
    assert_eq!(construct_rename_cmd(&ws, &cfg), None);
}

#[test]
fn rename_cmd_is_none_without_name_and_number() {
    assert_eq!(construct_rename_cmd(&node(), &config(&[])), None);
}

#[test]
fn rename_cmd_is_some_with_name_and_number() {
    let cfg = config(&[]);
    assert!(construct_rename_cmd(&workspace("x", 0, vec![]), &cfg).is_some());
}

#[test]
fn rename_cmd_for_empty_workspace_has_no_icons() {
    let cfg = config(&[("firefox", "🦊")]);
    assert_eq!(
        construct_rename_cmd(&workspace("3", 3, vec![]), &cfg),
        Some(("3".to_string(), "rename workspace '3' to '3: '".to_string()))
    );
}

#[test]
fn rename_cmd_uses_current_name_and_number() {
    let cfg = config(&[("firefox", "🦊"), ("alacritty", "T")]);
    let ws = workspace("4: old", 4, vec![window("Alacritty"), window("firefox")]);
    assert_eq!(
        construct_rename_cmd(&ws, &cfg),
        Some(("4: old".to_string(), "rename workspace '4: old' to '4: T 🦊'".to_string()))
    );
}

#[test]
fn rename_cmd_writes_negative_number() {
    let cfg = config(&[]);
    assert_eq!(
        construct_rename_cmd(&workspace("scratch", -1, vec![window("x")]), &cfg),
        Some(("scratch".to_string(), "rename workspace 'scratch' to '-1: ?'".to_string()))
    );
}

#[test]
fn rename_cmd_follows_configured_template() {
    let mut cfg = config(&[("firefox", "🦊")]);
    cfg.format_str = "[%i] %n".to_string();
    assert_eq!(
        construct_rename_cmd(&workspace("5", 5, vec![window("firefox")]), &cfg),
        Some(("5".to_string(), "rename workspace '5' to '[🦊] 5'".to_string()))
    );
}
