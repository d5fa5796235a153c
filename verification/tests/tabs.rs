use chromium_bridge::tabs::{activate_url, base_url, cdp_address, filter_pages, resolve_tab, tab_line, Tab, TabSelectError};

fn tab(id: &str, title: &str, url: &str, kind: &str) -> Tab {
    Tab {
        id: id.to_string(),
        title: title.to_string(),
        url: url.to_string(),
        tab_type: kind.to_string(),
        web_socket_debugger_url: String::new(),
    }
}

fn pages() -> Vec<Tab> {
    filter_pages(&[
        tab("1", "LinkedIn Feed", "https://www.linkedin.com/feed/", "page"),
        tab("w", "Worker", "https://www.linkedin.com/sw.js", "service_worker"),
        tab("2", "Messenger", "https://www.messenger.com/t/1", "page"),
        tab("3", "Inbox", "https://mail.google.com/", "page"),
    ])
}

#[test]
fn only_pages_are_kept() {
    let p = pages();
    let ids: Vec<&str> = p.iter().map(|t| t.id.as_str()).collect();
    assert_eq!(ids, vec!["1", "2", "3"]);
}

#[test]
fn index_selectors_pick_by_position() {
    let p = pages();
    assert_eq!(resolve_tab(&p, "0").unwrap().id, "1");
    assert_eq!(resolve_tab(&p, "+2").unwrap().id, "3");
    match resolve_tab(&p, "3") {
        Err(e) => assert_eq!(e.message(), "No tab at index 3"),
        Ok(_) => panic!("expected an error"),
    }
}

#[test]
fn pattern_selectors_need_exactly_one_match() {
    let p = pages();
    assert_eq!(resolve_tab(&p, "messenger").unwrap().id, "2");
    assert_eq!(resolve_tab(&p, "Inbox").unwrap().id, "3");
    match resolve_tab(&p, "nothing-here") {
        Err(e) => assert_eq!(e.message(), "No tab matching pattern 'nothing-here'"),
        Ok(_) => panic!("expected an error"),
    }
    match resolve_tab(&p, "https") {
        Err(e @ TabSelectError::Ambiguous(..)) => assert_eq!(
            e.message(),
            "Pattern 'https' matched 3 tabs. Be more specific:\n  [0] LinkedIn Feed \u{2014} https://www.linkedin.com/feed/\n  [1] Messenger \u{2014} https://www.messenger.com/t/1\n  [2] Inbox \u{2014} https://mail.google.com/"
        ),
        _ => panic!("expected an ambiguity"),
    }
    // "-1" is not an index, so it is a pattern
    match resolve_tab(&p, "-1") {
        Err(TabSelectError::NoMatch(s)) => assert_eq!(s, "-1"),
        _ => panic!("expected no match"),
    }
}

#[test]
fn endpoint_urls() {
    assert_eq!(base_url("127.0.0.1", 9222), "http://127.0.0.1:9222");
    assert_eq!(cdp_address("localhost", 0), "localhost:0");
    assert_eq!(
        activate_url("127.0.0.1", 65535, "ABC"),
        "http://127.0.0.1:65535/json/activate/ABC"
    );
    assert_eq!(tab_line(4, &pages()[0]), "[4] LinkedIn Feed \u{2014} https://www.linkedin.com/feed/");
}

#[test]
fn listed_index_selects_the_listed_tab() {
    let p = pages();
    for (i, t) in p.iter().enumerate() {
        let line = tab_line(i, t);
        let index = line[1..line.find(']').unwrap()].to_string();
        assert_eq!(resolve_tab(&p, &index).unwrap().id, t.id);
    }
}
