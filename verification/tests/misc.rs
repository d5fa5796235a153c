use chromium_bridge::paths::state_file_name;
use chromium_bridge::setup::{flags_file_path, has_remote_debugging_flag};
use chromium_bridge::snapshot::{
    shown_parents, snapshot_depths, snapshot_line, snapshot_lines, snapshot_tree, AxNodeInfo,
};
use chromium_bridge::state::{
    check_page_origin, check_state_version, needs_final_navigation, state_list_entries,
    storage_restore_script,
    state_name_of_file,
};
use chromium_bridge::wait::{matched_node, probe_script_for, wait_probe_script, wait_step, wait_timeout_message, WaitStep};

fn ax(
    id: &str,
    parent: Option<&str>,
    ignored: bool,
    role: Option<&str>,
    name: Option<&str>,
    dom: Option<i64>,
) -> AxNodeInfo {
    AxNodeInfo {
        node_id: id.to_string(),
        parent_id: parent.map(|p| p.to_string()),
        ignored,
        role: role.map(|r| r.to_string()),
        name: name.map(|n| n.to_string()),
        backend_dom_node_id: dom,
    }
}

#[test]
fn snapshot_lines_carry_refs() {
    assert_eq!(snapshot_line(true, Some("button"), Some("OK"), Some(3), "1", 0), None);
    assert_eq!(snapshot_line(false, Some("generic"), Some("x"), None, "2", 0), None);
    assert_eq!(snapshot_line(false, Some("none"), None, None, "3", 0), None);
    assert_eq!(
        snapshot_line(false, None, None, None, "7", 0).as_deref(),
        Some("[?] ref=ax:7")
    );
    assert_eq!(
        snapshot_line(false, Some("link"), Some(""), Some(12), "4", 1).as_deref(),
        Some("  [link] ref=dom:12")
    );
    assert_eq!(
        snapshot_line(false, Some("button"), None, None, "9", 0).as_deref(),
        Some("[button] ref=ax:9")
    );
    assert_eq!(
        snapshot_line(false, Some("button"), Some("Send"), Some(-5), "4", 2).as_deref(),
        Some("    [button] Send ref=dom:-5")
    );
}

#[test]
fn snapshot_names_are_shortened_on_char_boundaries() {
    let long = "x".repeat(100);
    assert_eq!(
        snapshot_line(false, Some("heading"), Some(&long), Some(1), "a", 0).unwrap(),
        format!("[heading] {}\u{2026} ref=dom:1", "x".repeat(80))
    );
    let exact = "y".repeat(80);
    assert_eq!(
        snapshot_line(false, Some("heading"), Some(&exact), None, "b", 0).unwrap(),
        format!("[heading] {exact} ref=ax:b")
    );
    // byte 80 falls inside the two-byte "é": the cut keeps 79 bytes
    let wide = format!("{}\u{e9}{}", "z".repeat(79), "z".repeat(10));
    assert_eq!(
        snapshot_line(false, Some("heading"), Some(&wide), None, "c", 0).unwrap(),
        format!("[heading] {}\u{2026} ref=ax:c", "z".repeat(79))
    );
    // exactly 80 bytes of multi-byte text is kept whole
    let euros = "\u{20ac}".repeat(26);
    assert_eq!(euros.len(), 78);
    let euros2 = format!("{euros}zz");
    assert_eq!(
        snapshot_line(false, Some("text"), Some(&euros2), None, "d", 0).unwrap(),
        format!("[text] {euros2} ref=ax:d")
    );
}

#[test]
fn snapshot_tree_keeps_shape() {
    let nodes = vec![
        ax("1", None, false, Some("RootWebArea"), Some("Page"), Some(1)),
        ax("2", Some("1"), false, Some("generic"), None, Some(5)),
        ax("3", Some("2"), false, Some("button"), Some("OK"), Some(6)),
        ax("4", Some("1"), true, Some("text"), Some("hidden"), None),
        ax("5", Some("4"), false, Some("link"), None, None),
        ax("6", Some("3"), false, None, Some("inner"), None),
        ax("7", Some("99"), false, Some("note"), None, Some(8)),
    ];
    assert_eq!(
        snapshot_lines(&nodes),
        vec![
            "[RootWebArea] Page ref=dom:1".to_string(),
            "  [button] OK ref=dom:6".to_string(),
            "  [link] ref=ax:5".to_string(),
            "    [?] inner ref=ax:6".to_string(),
            "[note] ref=dom:8".to_string(),
        ]
    );
    assert_eq!(snapshot_depths(&nodes), vec![0, 1, 1, 1, 1, 2, 0]);
    assert!(snapshot_lines(&[]).is_empty());
}

#[test]
fn snapshot_tree_links_parents_and_children() {
    let nodes = vec![
        ax("1", None, false, Some("RootWebArea"), Some("Page"), Some(1)),
        ax("2", Some("1"), false, Some("generic"), None, Some(5)),
        ax("3", Some("2"), false, Some("button"), Some("OK"), Some(6)),
        ax("4", Some("1"), true, Some("text"), Some("hidden"), None),
        ax("5", Some("4"), false, Some("link"), None, None),
        ax("6", Some("3"), false, None, Some("inner"), None),
        ax("7", Some("99"), false, Some("note"), None, Some(8)),
    ];
    assert_eq!(
        shown_parents(&nodes),
        vec![None, Some(0), Some(0), Some(0), Some(0), Some(2), None]
    );
    let tree = snapshot_tree(&nodes);
    let got: Vec<(&str, Option<&str>, usize, Option<&str>, Vec<&str>)> = tree
        .iter()
        .map(|n| {
            (
                n.node_ref.as_str(),
                n.role.as_deref(),
                n.depth,
                n.parent_ref.as_deref(),
                n.child_refs.iter().map(|c| c.as_str()).collect(),
            )
        })
        .collect();
    assert_eq!(
        got,
        vec![
            ("ref=dom:1", Some("RootWebArea"), 0, None, vec!["ref=dom:6", "ref=ax:5"]),
            ("ref=dom:6", Some("button"), 1, Some("ref=dom:1"), vec!["ref=ax:6"]),
            ("ref=ax:5", Some("link"), 1, Some("ref=dom:1"), vec![]),
            ("ref=ax:6", None, 2, Some("ref=dom:6"), vec![]),
            ("ref=dom:8", Some("note"), 0, None, vec![]),
        ]
    );
    assert_eq!(tree[0].name.as_deref(), Some("Page"));
    assert_eq!(tree[3].name.as_deref(), Some("inner"));
    assert!(snapshot_tree(&[]).is_empty());
}

#[test]
fn probe_script_quotes_selector() {
    assert_eq!(
        wait_probe_script("div.loaded").unwrap(),
        "document.querySelector(\"div.loaded\") !== null"
    );
    assert_eq!(
        wait_probe_script("a[title=\"x\"]\n\u{1}").unwrap(),
        "document.querySelector(\"a[title=\\\"x\\\"]\\n\\u0001\") !== null"
    );
    assert_eq!(
        probe_script_for("'#x'"),
        "document.querySelector('#x') !== null"
    );
    assert_eq!(wait_step(true, true), WaitStep::Found);
    assert_eq!(wait_step(false, true), WaitStep::TimedOut);
    assert_eq!(wait_step(false, false), WaitStep::Poll);
}

#[test]
fn state_checks() {
    assert!(check_state_version(1, "/s/a.json").is_ok());
    assert_eq!(
        check_state_version(2, "/s/a.json").unwrap_err().message(),
        "Unsupported state snapshot version 2 in /s/a.json"
    );
    assert!(check_page_origin("https://a.example", "https://a.example/x").is_ok());
    assert_eq!(
        check_page_origin("null", "about:blank").unwrap_err().message(),
        "Cannot save state for opaque origin 'about:blank'; navigate to an http(s) page first"
    );
    let urls = vec!["https://a/".to_string(), "https://b/".to_string()];
    assert!(!needs_final_navigation(&urls, "https://b/"));
    assert!(needs_final_navigation(&urls, "https://a/"));
    assert!(needs_final_navigation(&[], "https://a/"));
}

#[test]
fn state_listing_is_sorted_json_files() {
    assert_eq!(state_name_of_file("a.json").as_deref(), Some("a"));
    assert_eq!(state_name_of_file(".json"), None);
    assert_eq!(state_name_of_file("a.json.bak"), None);
    assert_eq!(state_name_of_file("a.b.json").as_deref(), Some("a.b"));
    let names: Vec<String> = ["zeta.json", "notes.txt", "Alpha.json", "beta.json", ".json"]
        .iter()
        .map(|s| s.to_string())
        .collect();
    let entries = state_list_entries("/s", &names, &[]);
    let got: Vec<(&str, &str)> = entries
        .iter()
        .map(|e| (e.name.as_str(), e.path.as_str()))
        .collect();
    assert_eq!(
        got,
        vec![
            ("Alpha", "/s/Alpha.json"),
            ("beta", "/s/beta.json"),
            ("zeta", "/s/zeta.json")
        ]
    );
    let unreadable = vec!["/s/\u{fffd}x.json".to_string()];
    let entries = state_list_entries("/s", &names, &unreadable);
    let got: Vec<(&str, &str)> = entries
        .iter()
        .map(|e| (e.name.as_str(), e.path.as_str()))
        .collect();
    assert_eq!(
        got,
        vec![
            ("/s/\u{fffd}x.json", "/s/\u{fffd}x.json"),
            ("Alpha", "/s/Alpha.json"),
            ("beta", "/s/beta.json"),
            ("zeta", "/s/zeta.json")
        ]
    );
}

#[test]
fn flags_file_checks() {
    assert_eq!(
        flags_file_path("~/.config/brave-flags.conf", "/home/me"),
        "/home/me/.config/brave-flags.conf"
    );
    assert_eq!(flags_file_path("a~b~", "H"), "aHbH");
    assert!(has_remote_debugging_flag("--foo\n--remote-debugging-port=9222\n"));
    assert!(!has_remote_debugging_flag("--remote-debugging-pipe"));
}

#[test]
fn saved_names_are_listed_under_their_name() {
    for name in ["linkedin-auth", "a.b", "x.json", "json"] {
        let file = state_file_name(name);
        let listed = state_name_of_file(&file).unwrap();
        assert_eq!(listed, name.strip_suffix(".json").unwrap_or(name));
    }
    assert_eq!(state_name_of_file(&state_file_name(".json")), None);
}

#[test]
fn wait_timeout_error_names_selector_and_limit() {
    assert_eq!(
        wait_timeout_message("#app .ready", 5000),
        "Timeout waiting for selector '#app .ready' after 5000ms"
    );
    assert_eq!(
        wait_timeout_message("", 18446744073709551615),
        "Timeout waiting for selector '' after 18446744073709551615ms"
    );
}

#[test]
fn node_id_zero_means_no_match() {
    assert_eq!(matched_node(42, "#go"), Ok(42));
    assert_eq!(
        matched_node(0, "button.primary"),
        Err("No element matching selector 'button.primary'".to_string())
    );
}

#[test]
fn restore_script_embeds_state_and_checks_origin() {
    let payload = "{\"origin\":\"https://a.test\",\"localStorage\":{\"k\":\"v\"},\"sessionStorage\":{}}";
    let js = storage_restore_script(payload);
    assert!(js.starts_with("\n        (() => {\n            const state = {\"origin\""));
    assert!(js.contains(&format!("const state = {payload};\n")));
    assert!(js.contains("if (window.location.origin !== state.origin) {"));
    assert!(js.contains("throw new Error(`Origin mismatch: expected ${state.origin}, got ${window.location.origin}`);"));
    assert!(js.contains("window.localStorage.clear();"));
    assert!(js.contains("window.sessionStorage.setItem(key, value);"));
    assert!(js.ends_with("            };\n        })()\n        "));
}
