use chromium_bridge::network::{
    apply_loading_failed, apply_loading_finished, apply_network_event, apply_response_event,
    capture_step, capture_timeout_message, capture_trigger, match_kind_label,
    missing_response_note, network_summary,
    post_data_error, post_data_plan, request_status_label, select_network_request,
    upsert_request_event, CaptureStep, CapturedNetworkRequest, LoadingFailedEvent,
    LoadingFinishedEvent, NetworkCapture, NetworkEvent, NetworkMatchKind, PostDataPlan,
    RequestWillBeSentEvent, ResponseReceivedEvent,
};

fn empty_json() -> serde_json::Value {
    serde_json::Value::Object(serde_json::Map::new())
}

#[test]
fn network_request_match_prefers_exact_request_id() {
    let requests = vec![
        CapturedNetworkRequest {
            request_id: "1234.1".to_string(),
            document_url: "https://example.com".to_string(),
            url: "https://example.com/api/search".to_string(),
            method: "GET".to_string(),
            resource_type: Some("XHR".to_string()),
            initiator_type: "script".to_string(),
            initiator_url: None,
            request_headers: empty_json(),
            has_post_data: false,
            post_data: None,
            response_status: Some(200),
            response_status_text: Some("OK".to_string()),
            response_headers: Some(empty_json()),
            mime_type: Some("application/json".to_string()),
            protocol: Some("h2".to_string()),
            remote_ip_address: None,
            remote_port: None,
            from_disk_cache: false,
            from_service_worker: false,
            encoded_data_length: Some(42.0f64.to_bits()),
            failed: false,
            canceled: false,
            error_text: None,
            finished: true,
        },
        CapturedNetworkRequest {
            request_id: "5678.9".to_string(),
            document_url: "https://example.com".to_string(),
            url: "https://example.com/api/other".to_string(),
            method: "GET".to_string(),
            resource_type: Some("XHR".to_string()),
            initiator_type: "script".to_string(),
            initiator_url: None,
            request_headers: empty_json(),
            has_post_data: false,
            post_data: None,
            response_status: Some(200),
            response_status_text: Some("OK".to_string()),
            response_headers: Some(empty_json()),
            mime_type: Some("application/json".to_string()),
            protocol: Some("h2".to_string()),
            remote_ip_address: None,
            remote_port: None,
            from_disk_cache: false,
            from_service_worker: false,
            encoded_data_length: Some(42.0f64.to_bits()),
            failed: false,
            canceled: false,
            error_text: None,
            finished: true,
        },
    ];

    let (matched, matched_by, matched_count) =
        select_network_request(&requests, "1234.1").expect("matched request");
    assert_eq!(matched.request_id, "1234.1");
    assert!(matches!(matched_by, NetworkMatchKind::RequestId));
    assert_eq!(matched_count, 1);
}

fn sent(id: &str, url: &str, redirect: bool) -> RequestWillBeSentEvent {
    RequestWillBeSentEvent {
        request_id: id.to_string(),
        document_url: "https://example.com/".to_string(),
        url: url.to_string(),
        method: "GET".to_string(),
        resource_type: Some("Fetch".to_string()),
        initiator_type: "script".to_string(),
        initiator_url: None,
        headers: empty_json(),
        has_post_data: None,
        post_data_entry_count: None,
        redirect,
    }
}

fn response(id: &str, status: i64) -> ResponseReceivedEvent {
    ResponseReceivedEvent {
        request_id: id.to_string(),
        resource_type: "Fetch".to_string(),
        status,
        status_text: "OK".to_string(),
        headers: empty_json(),
        mime_type: "application/json".to_string(),
        protocol: Some("h2".to_string()),
        remote_ip_address: Some("127.0.0.1".to_string()),
        remote_port: Some(443),
        from_disk_cache: None,
        from_service_worker: Some(true),
        encoded_data_length: 10.0f64.to_bits(),
    }
}

fn ids(capture: &NetworkCapture) -> Vec<String> {
    capture.requests().iter().map(|r| r.request_id.clone()).collect()
}

#[test]
fn capture_keeps_first_seen_order_once_per_id() {
    let mut c = NetworkCapture::new();
    upsert_request_event(&mut c, sent("b", "https://x/b", false));
    upsert_request_event(&mut c, sent("a", "https://x/a", false));
    upsert_request_event(&mut c, sent("b", "https://x/b2", false));
    apply_network_event(&mut c, NetworkEvent::RequestWillBeSent(sent("c", "https://x/c", false)));
    assert_eq!(ids(&c), vec!["b", "a", "c"]);
    assert_eq!(c.requests()[0].url, "https://x/b2");
    let all = c.into_requests();
    assert_eq!(all.len(), 3);
}

#[test]
fn events_for_unknown_ids_are_ignored() {
    let mut c = NetworkCapture::new();
    upsert_request_event(&mut c, sent("a", "https://x/a", false));
    apply_response_event(&mut c, response("zzz", 404));
    apply_loading_finished(
        &mut c,
        LoadingFinishedEvent {
            request_id: "zzz".to_string(),
            encoded_data_length: 1.0f64.to_bits(),
        },
    );
    apply_loading_failed(
        &mut c,
        LoadingFailedEvent {
            request_id: "zzz".to_string(),
            resource_type: "Fetch".to_string(),
            error_text: "boom".to_string(),
            canceled: None,
        },
    );
    assert_eq!(ids(&c), vec!["a"]);
    let r = &c.requests()[0];
    assert_eq!(r.response_status, None);
    assert!(!r.finished && !r.failed);
}

#[test]
fn response_finish_and_failure_update_the_request() {
    let mut c = NetworkCapture::new();
    upsert_request_event(&mut c, sent("a", "https://x/a", false));
    apply_response_event(&mut c, response("a", 200));
    {
        let r = &c.requests()[0];
        assert_eq!(r.response_status, Some(200));
        assert_eq!(r.mime_type.as_deref(), Some("application/json"));
        assert!(!r.from_disk_cache);
        assert!(r.from_service_worker);
        assert_eq!(r.remote_port, Some(443));
        assert_eq!(r.encoded_data_length, Some(10.0f64.to_bits()));
    }
    apply_loading_finished(
        &mut c,
        LoadingFinishedEvent {
            request_id: "a".to_string(),
            encoded_data_length: 99.0f64.to_bits(),
        },
    );
    assert!(c.requests()[0].finished);
    assert_eq!(c.requests()[0].encoded_data_length, Some(99.0f64.to_bits()));
    apply_loading_failed(
        &mut c,
        LoadingFailedEvent {
            request_id: "a".to_string(),
            resource_type: "Document".to_string(),
            error_text: "net::ERR_ABORTED".to_string(),
            canceled: Some(true),
        },
    );
    let r = &c.requests()[0];
    assert!(r.failed && r.canceled && r.finished);
    assert_eq!(r.error_text.as_deref(), Some("net::ERR_ABORTED"));
    assert_eq!(r.resource_type.as_deref(), Some("Document"));
}

#[test]
fn redirect_clears_the_earlier_response() {
    let mut c = NetworkCapture::new();
    upsert_request_event(&mut c, sent("a", "https://x/a", false));
    apply_response_event(&mut c, response("a", 301));
    upsert_request_event(&mut c, sent("a", "https://x/b", false));
    assert_eq!(c.requests()[0].response_status, Some(301));
    upsert_request_event(&mut c, sent("a", "https://x/c", true));
    let r = &c.requests()[0];
    assert_eq!(r.url, "https://x/c");
    assert_eq!(r.response_status, None);
    assert_eq!(r.mime_type, None);
    assert!(!r.from_service_worker);
}

#[test]
fn post_data_flag_falls_back_to_entries() {
    let mut c = NetworkCapture::new();
    let mut e = sent("a", "https://x/a", false);
    e.post_data_entry_count = Some(2);
    upsert_request_event(&mut c, e);
    let mut e = sent("b", "https://x/b", false);
    e.has_post_data = Some(false);
    e.post_data_entry_count = Some(2);
    upsert_request_event(&mut c, e);
    let mut e = sent("c", "https://x/c", false);
    e.post_data_entry_count = Some(0);
    upsert_request_event(&mut c, e);
    let r = c.requests();
    assert!(r[0].has_post_data);
    assert!(!r[1].has_post_data);
    assert!(!r[2].has_post_data);
    assert!(matches!(post_data_plan(&r[0]), PostDataPlan::Fetch));
    assert!(matches!(post_data_plan(&r[1]), PostDataPlan::NotSent));
    assert_eq!(
        post_data_error(true, &None).as_deref(),
        Some("CDP did not retain request post data for this request")
    );
    assert_eq!(post_data_error(true, &Some("x".to_string())), None);
    assert_eq!(post_data_error(false, &None), None);
    assert_eq!(
        missing_response_note(&r[0]).as_deref(),
        Some("No HTTP response was captured for this request")
    );
}

#[test]
fn url_pattern_picks_last_match_and_counts() {
    let mut c = NetworkCapture::new();
    upsert_request_event(&mut c, sent("1", "https://x/graphql?a", false));
    upsert_request_event(&mut c, sent("2", "https://x/other", false));
    upsert_request_event(&mut c, sent("3", "https://x/graphql?b", false));
    let reqs = c.into_requests();
    let (m, kind, count) = select_network_request(&reqs, "graphql").unwrap();
    assert_eq!(m.request_id, "3");
    assert_eq!(kind, NetworkMatchKind::UrlPattern);
    assert_eq!(count, 2);
    assert_eq!(match_kind_label(kind), "urlPattern");
    assert_eq!(match_kind_label(NetworkMatchKind::RequestId), "requestId");
    let err = select_network_request(&reqs, "nothing").unwrap_err();
    assert_eq!(
        err.message(),
        "No captured request matched 'nothing'. Use 'chromium-bridge network list' to inspect request ids."
    );
}

#[test]
fn status_labels_follow_precedence() {
    let mut c = NetworkCapture::new();
    upsert_request_event(&mut c, sent("a", "https://x/a", false));
    let reqs = c.into_requests();
    let mut s = network_summary(&reqs[0]);
    assert_eq!(s.url, "https://x/a");
    assert_eq!(request_status_label(&s), "pending");
    s.finished = true;
    assert_eq!(request_status_label(&s), "done");
    s.status = Some(-5);
    assert_eq!(request_status_label(&s), "-5");
    s.status = Some(204);
    assert_eq!(request_status_label(&s), "204");
    s.failed = true;
    assert_eq!(request_status_label(&s), "failed");
}

#[test]
fn capture_loop_decisions() {
    assert_eq!(capture_step(false, 10_000, 100, 750, 15_000), CaptureStep::Continue);
    assert_eq!(capture_step(true, 749, 100, 750, 15_000), CaptureStep::Continue);
    assert_eq!(capture_step(true, 750, 100, 750, 15_000), CaptureStep::Finished);
    assert_eq!(capture_step(false, 0, 15_000, 750, 15_000), CaptureStep::TimedOut);
    assert_eq!(capture_step(true, 0, 15_000, 750, 15_000), CaptureStep::Finished);
    assert_eq!(capture_trigger(None), "reload");
    assert_eq!(capture_trigger(Some("https://a/")), "navigate:https://a/");
}

#[test]
fn capture_timeout_error_names_the_limit() {
    assert_eq!(
        capture_timeout_message(30000),
        "Timed out waiting for page load after 30000ms"
    );
    assert_eq!(capture_timeout_message(0), "Timed out waiting for page load after 0ms");
}
