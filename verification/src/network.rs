//! Bookkeeping for network requests captured during one page load: the
//! per-request record built from DevTools network events, kept once per
//! request id in the order in which each id was first seen.
use vstd::prelude::*;
use crate::text::{
    contains_seq, decimal, push_decimal, push_signed_decimal, push_str, signed_decimal,
    opt_string_view, str_contains, str_eq,
};
use vstd::string::StringExecFns;

verus! {

/// A JSON value (headers) carried through unchanged.
#[verifier::external_type_specification]
#[verifier::external_body]
pub struct ExJsonValue(serde_json::Value);

/// What is known of one request after the events seen so far.
/// `encoded_data_length` holds the IEEE-754 bit pattern of the byte count
/// that the browser reports as a floating-point number.
#[derive(Debug)]
pub struct CapturedNetworkRequest {
    pub request_id: String,
    pub document_url: String,
    pub url: String,
    pub method: String,
    pub resource_type: Option<String>,
    pub initiator_type: String,
    pub initiator_url: Option<String>,
    pub request_headers: serde_json::Value,
    pub has_post_data: bool,
    pub post_data: Option<String>,
    pub response_status: Option<i64>,
    pub response_status_text: Option<String>,
    pub response_headers: Option<serde_json::Value>,
    pub mime_type: Option<String>,
    pub protocol: Option<String>,
    pub remote_ip_address: Option<String>,
    pub remote_port: Option<i64>,
    pub from_disk_cache: bool,
    pub from_service_worker: bool,
    pub encoded_data_length: Option<u64>,
    pub failed: bool,
    pub canceled: bool,
    pub error_text: Option<String>,
    pub finished: bool,
}

/// `Network.requestWillBeSent`, as far as the capture reads it.
#[derive(Debug)]
pub struct RequestWillBeSentEvent {
    pub request_id: String,
    pub document_url: String,
    pub url: String,
    pub method: String,
    pub resource_type: Option<String>,
    pub initiator_type: String,
    pub initiator_url: Option<String>,
    pub headers: serde_json::Value,
    pub has_post_data: Option<bool>,
    /// Number of post-data entries, when the browser lists them.
    pub post_data_entry_count: Option<usize>,
    /// The event carries a redirect response (the request was redirected).
    pub redirect: bool,
}

/// `Network.responseReceived`, as far as the capture reads it.
#[derive(Debug)]
pub struct ResponseReceivedEvent {
    pub request_id: String,
    pub resource_type: String,
    pub status: i64,
    pub status_text: String,
    pub headers: serde_json::Value,
    pub mime_type: String,
    pub protocol: Option<String>,
    pub remote_ip_address: Option<String>,
    pub remote_port: Option<i64>,
    pub from_disk_cache: Option<bool>,
    pub from_service_worker: Option<bool>,
    /// IEEE-754 bit pattern of the encoded length.
    pub encoded_data_length: u64,
}

/// `Network.loadingFinished`.
#[derive(Debug)]
pub struct LoadingFinishedEvent {
    pub request_id: String,
    /// IEEE-754 bit pattern of the encoded length.
    pub encoded_data_length: u64,
}

/// `Network.loadingFailed`.
#[derive(Debug)]
pub struct LoadingFailedEvent {
    pub request_id: String,
    pub resource_type: String,
    pub error_text: String,
    pub canceled: Option<bool>,
}

/// One network event of the capture.
#[derive(Debug)]
pub enum NetworkEvent {
    RequestWillBeSent(RequestWillBeSentEvent),
    ResponseReceived(ResponseReceivedEvent),
    LoadingFinished(LoadingFinishedEvent),
    LoadingFailed(LoadingFailedEvent),
}

// ---------------------------------------------------------------------------
// Model
// ---------------------------------------------------------------------------

/// No request id occurs twice.
pub open spec fn ids_distinct(reqs: Seq<CapturedNetworkRequest>) -> bool {
    forall|i: int, j: int|
        0 <= i < j < reqs.len() ==> #[trigger] reqs[i].request_id@ != #[trigger] reqs[j].request_id@
}

/// Some captured request has the id `id`.
pub open spec fn has_request(reqs: Seq<CapturedNetworkRequest>, id: Seq<char>) -> bool {
    exists|i: int| 0 <= i < reqs.len() && #[trigger] reqs[i].request_id@ == id
}

/// The position of the first request with the id `id` (meaningful when there is one).
pub open spec fn request_index(reqs: Seq<CapturedNetworkRequest>, id: Seq<char>) -> int {
    choose|i: int|
        0 <= i < reqs.len() && reqs[i].request_id@ == id && forall|k: int|
            0 <= k < i ==> #[trigger] reqs[k].request_id@ != id
}

/// The ids of the captured requests, in order.
pub open spec fn request_ids(reqs: Seq<CapturedNetworkRequest>) -> Seq<Seq<char>> {
    reqs.map_values(|r: CapturedNetworkRequest| r.request_id@)
}

/// Whether a request event says the request carries post data: the explicit
/// flag when present, otherwise whether any post-data entries are listed.
pub open spec fn announced_post_data(ev: RequestWillBeSentEvent) -> bool {
    match ev.has_post_data {
        Some(b) => b,
        None => match ev.post_data_entry_count {
            Some(n) => n > 0,
            None => false,
        },
    }
}

/// The record of a request first seen in `ev`.
pub open spec fn request_from_event(ev: RequestWillBeSentEvent) -> CapturedNetworkRequest {
    CapturedNetworkRequest {
        request_id: ev.request_id,
        document_url: ev.document_url,
        url: ev.url,
        method: ev.method,
        resource_type: ev.resource_type,
        initiator_type: ev.initiator_type,
        initiator_url: ev.initiator_url,
        request_headers: ev.headers,
        has_post_data: announced_post_data(ev),
        post_data: None,
        response_status: None,
        response_status_text: None,
        response_headers: None,
        mime_type: None,
        protocol: None,
        remote_ip_address: None,
        remote_port: None,
        from_disk_cache: false,
        from_service_worker: false,
        encoded_data_length: None,
        failed: false,
        canceled: false,
        error_text: None,
        finished: false,
    }
}

/// A known request after a further `requestWillBeSent` for it: the request
/// fields are replaced, and a redirect also clears everything learned of the
/// previous response.
pub open spec fn request_resent(r: CapturedNetworkRequest, ev: RequestWillBeSentEvent) -> CapturedNetworkRequest {
    let base = CapturedNetworkRequest {
        document_url: ev.document_url,
        url: ev.url,
        method: ev.method,
        resource_type: ev.resource_type,
        initiator_type: ev.initiator_type,
        initiator_url: ev.initiator_url,
        request_headers: ev.headers,
        has_post_data: announced_post_data(ev),
        post_data: None,
        ..r
    };
    if ev.redirect {
        CapturedNetworkRequest {
            response_status: None,
            response_status_text: None,
            response_headers: None,
            mime_type: None,
            protocol: None,
            remote_ip_address: None,
            remote_port: None,
            from_disk_cache: false,
            from_service_worker: false,
            encoded_data_length: None,
            failed: false,
            canceled: false,
            error_text: None,
            finished: false,
            ..base
        }
    } else {
        base
    }
}

/// A request after its response arrived.
pub open spec fn request_responded(r: CapturedNetworkRequest, ev: ResponseReceivedEvent) -> CapturedNetworkRequest {
    CapturedNetworkRequest {
        resource_type: Some(ev.resource_type),
        response_status: Some(ev.status),
        response_status_text: Some(ev.status_text),
        response_headers: Some(ev.headers),
        mime_type: Some(ev.mime_type),
        protocol: ev.protocol,
        remote_ip_address: ev.remote_ip_address,
        remote_port: ev.remote_port,
        from_disk_cache: match ev.from_disk_cache {
            Some(b) => b,
            None => false,
        },
        from_service_worker: match ev.from_service_worker {
            Some(b) => b,
            None => false,
        },
        encoded_data_length: Some(ev.encoded_data_length),
        ..r
    }
}

/// A request after it finished loading.
pub open spec fn request_finished(r: CapturedNetworkRequest, ev: LoadingFinishedEvent) -> CapturedNetworkRequest {
    CapturedNetworkRequest { encoded_data_length: Some(ev.encoded_data_length), finished: true, ..r }
}

/// A request after it failed to load.
pub open spec fn request_failed(r: CapturedNetworkRequest, ev: LoadingFailedEvent) -> CapturedNetworkRequest {
    CapturedNetworkRequest {
        resource_type: Some(ev.resource_type),
        failed: true,
        canceled: match ev.canceled {
            Some(b) => b,
            None => false,
        },
        error_text: Some(ev.error_text),
        finished: true,
        ..r
    }
}

/// The captured requests after a `requestWillBeSent`: a known id is updated
/// in place, a new id is appended.
pub open spec fn after_request_sent(reqs: Seq<CapturedNetworkRequest>, ev: RequestWillBeSentEvent) -> Seq<CapturedNetworkRequest> {
    if has_request(reqs, ev.request_id@) {
        let i = request_index(reqs, ev.request_id@);
        reqs.update(i, request_resent(reqs[i], ev))
    } else {
        reqs.push(request_from_event(ev))
    }
}

/// The captured requests after a `responseReceived`; unknown ids change nothing.
pub open spec fn after_response(reqs: Seq<CapturedNetworkRequest>, ev: ResponseReceivedEvent) -> Seq<CapturedNetworkRequest> {
    if has_request(reqs, ev.request_id@) {
        let i = request_index(reqs, ev.request_id@);
        reqs.update(i, request_responded(reqs[i], ev))
    } else {
        reqs
    }
}

/// The captured requests after a `loadingFinished`; unknown ids change nothing.
pub open spec fn after_finished(reqs: Seq<CapturedNetworkRequest>, ev: LoadingFinishedEvent) -> Seq<CapturedNetworkRequest> {
    if has_request(reqs, ev.request_id@) {
        let i = request_index(reqs, ev.request_id@);
        reqs.update(i, request_finished(reqs[i], ev))
    } else {
        reqs
    }
}

/// The captured requests after a `loadingFailed`; unknown ids change nothing.
pub open spec fn after_failed(reqs: Seq<CapturedNetworkRequest>, ev: LoadingFailedEvent) -> Seq<CapturedNetworkRequest> {
    if has_request(reqs, ev.request_id@) {
        let i = request_index(reqs, ev.request_id@);
        reqs.update(i, request_failed(reqs[i], ev))
    } else {
        reqs
    }
}

/// The captured requests after any network event.
pub open spec fn after_event(reqs: Seq<CapturedNetworkRequest>, ev: NetworkEvent) -> Seq<CapturedNetworkRequest> {
    match ev {
        NetworkEvent::RequestWillBeSent(e) => after_request_sent(reqs, e),
        NetworkEvent::ResponseReceived(e) => after_response(reqs, e),
        NetworkEvent::LoadingFinished(e) => after_finished(reqs, e),
        NetworkEvent::LoadingFailed(e) => after_failed(reqs, e),
    }
}

/// The captured requests after a sequence of events, applied in order.
pub open spec fn after_events(reqs: Seq<CapturedNetworkRequest>, evs: Seq<NetworkEvent>) -> Seq<CapturedNetworkRequest>
    decreases evs.len(),
{
    if evs.len() == 0 {
        reqs
    } else {
        after_event(after_events(reqs, evs.drop_last()), evs.last())
    }
}

/// The ids `ids`, followed by each id of a `requestWillBeSent` in `evs` that
/// was not seen before, in the order of first appearance.
pub open spec fn first_seen_ids(ids: Seq<Seq<char>>, evs: Seq<NetworkEvent>) -> Seq<Seq<char>>
    decreases evs.len(),
{
    if evs.len() == 0 {
        ids
    } else {
        let prev = first_seen_ids(ids, evs.drop_last());
        match evs.last() {
            NetworkEvent::RequestWillBeSent(e) => if prev.contains(e.request_id@) {
                prev
            } else {
                prev.push(e.request_id@)
            },
            _ => prev,
        }
    }
}

// ---------------------------------------------------------------------------
// The capture
// ---------------------------------------------------------------------------

/// The requests of one capture, each id once, in first-seen order.
#[derive(Debug)]
pub struct NetworkCapture {
    requests: Vec<CapturedNetworkRequest>,
}

impl View for NetworkCapture {
    type V = Seq<CapturedNetworkRequest>;

    closed spec fn view(&self) -> Seq<CapturedNetworkRequest> {
        self.requests@
    }
}

impl NetworkCapture {
    /// No request id occurs twice.
    #[verifier::type_invariant]
    spec fn inv(&self) -> bool {
        ids_distinct(self.requests@)
    }

    /// An empty capture.
    pub fn new() -> (c: Self)
        ensures
            c@ == Seq::<CapturedNetworkRequest>::empty(),
    {
        NetworkCapture { requests: Vec::new() }
    }

    /// The captured requests, in the order their ids were first seen.
    pub fn requests(&self) -> (r: &Vec<CapturedNetworkRequest>)
        ensures
            r@ == self@,
            ids_distinct(r@),
    {
        proof {
            use_type_invariant(self);
        }
        &self.requests
    }

    /// Ends the capture, handing out its requests in first-seen order.
    pub fn into_requests(self) -> (r: Vec<CapturedNetworkRequest>)
        ensures
            r@ == self@,
            ids_distinct(r@),
    {
        proof {
            use_type_invariant(&self);
        }
        self.requests
    }
}

/// The position of the request with id `id`, if any.
fn position_of(reqs: &[CapturedNetworkRequest], id: &str) -> (r: Option<usize>)
    ensures
        match r {
            Some(i) => {
                &&& i < reqs@.len()
                &&& has_request(reqs@, id@)
                &&& i as int == request_index(reqs@, id@)
            },
            None => !has_request(reqs@, id@),
        },
{
    let n = reqs.len();
    let mut i: usize = 0;
    while i < n
        invariant
            n == reqs@.len(),
            i <= n,
            forall|k: int| 0 <= k < i ==> #[trigger] reqs@[k].request_id@ != id@,
        decreases n - i,
    {
        if str_eq(reqs[i].request_id.as_str(), id) {
            proof {
                let j = request_index(reqs@, id@);
                assert(has_request(reqs@, id@));
                if j < i {
                    assert(reqs@[j].request_id@ != id@);
                } else if j > i {
                    assert(reqs@[i as int].request_id@ == id@);
                }
            }
            return Some(i);
        }
        i = i + 1;
    }
    None
}

proof fn lemma_update_keeps_distinct(reqs: Seq<CapturedNetworkRequest>, i: int, r: CapturedNetworkRequest)
    requires
        ids_distinct(reqs),
        0 <= i < reqs.len(),
        r.request_id@ == reqs[i].request_id@,
    ensures
        ids_distinct(reqs.update(i, r)),
{
    let u = reqs.update(i, r);
    assert forall|a: int, b: int| 0 <= a < b < u.len() implies #[trigger] u[a].request_id@
        != #[trigger] u[b].request_id@ by {
        assert(reqs[a].request_id@ != reqs[b].request_id@);
    }
}

/// Records a `requestWillBeSent`: a new id is appended with the request's
/// fields; a known id has its request fields replaced in place, and on a
/// redirect also loses everything learned of the earlier response.
pub fn upsert_request_event(capture: &mut NetworkCapture, event: RequestWillBeSentEvent)
    ensures
        ids_distinct(final(capture)@),
        final(capture)@ == after_request_sent(old(capture)@, event),
{
    let has_post = match event.has_post_data {
        Some(b) => b,
        None => match event.post_data_entry_count {
            Some(n) => n > 0,
            None => false,
        },
    };
    let ghost ev = event;
    let RequestWillBeSentEvent {
        request_id,
        document_url,
        url,
        method,
        resource_type,
        initiator_type,
        initiator_url,
        headers,
        has_post_data: _,
        post_data_entry_count: _,
        redirect,
    } = event;
    proof {
        use_type_invariant(&*capture);
    }
    let mut reqs: Vec<CapturedNetworkRequest> = Vec::new();
    std::mem::swap(&mut reqs, &mut capture.requests);
    match position_of(reqs.as_slice(), request_id.as_str()) {
        Some(i) => {
            let ghost before = reqs@;
            let entry = &mut reqs[i];
            entry.document_url = document_url;
            entry.url = url;
            entry.method = method;
            entry.resource_type = resource_type;
            entry.initiator_type = initiator_type;
            entry.initiator_url = initiator_url;
            entry.request_headers = headers;
            entry.has_post_data = has_post;
            entry.post_data = None;
            if redirect {
                entry.response_status = None;
                entry.response_status_text = None;
                entry.response_headers = None;
                entry.mime_type = None;
                entry.protocol = None;
                entry.remote_ip_address = None;
                entry.remote_port = None;
                entry.from_disk_cache = false;
                entry.from_service_worker = false;
                entry.encoded_data_length = None;
                entry.failed = false;
                entry.canceled = false;
                entry.error_text = None;
                entry.finished = false;
            }
            proof {
                assert(reqs@ =~= before.update(i as int, request_resent(before[i as int], ev)));
                lemma_update_keeps_distinct(before, i as int, request_resent(before[i as int], ev));
            }
        },
        None => {
            let ghost before = reqs@;
            reqs.push(
                CapturedNetworkRequest {
                    request_id,
                    document_url,
                    url,
                    method,
                    resource_type,
                    initiator_type,
                    initiator_url,
                    request_headers: headers,
                    has_post_data: has_post,
                    post_data: None,
                    response_status: None,
                    response_status_text: None,
                    response_headers: None,
                    mime_type: None,
                    protocol: None,
                    remote_ip_address: None,
                    remote_port: None,
                    from_disk_cache: false,
                    from_service_worker: false,
                    encoded_data_length: None,
                    failed: false,
                    canceled: false,
                    error_text: None,
                    finished: false,
                },
            );
            proof {
                assert(reqs@ =~= before.push(request_from_event(ev)));
                let u = reqs@;
                assert forall|a: int, b: int| 0 <= a < b < u.len() implies #[trigger] u[a].request_id@
                    != #[trigger] u[b].request_id@ by {
                    if b == u.len() - 1 {
                        assert(before[a].request_id@ != ev.request_id@);
                    } else {
                        assert(before[a].request_id@ != before[b].request_id@);
                    }
                }
            }
        },
    }
    capture.requests = reqs;
}

/// Records a `responseReceived` for a known request; an unknown id changes nothing.
pub fn apply_response_event(capture: &mut NetworkCapture, event: ResponseReceivedEvent)
    ensures
        ids_distinct(final(capture)@),
        final(capture)@ == after_response(old(capture)@, event),
{
    let ghost ev = event;
    let from_disk = match event.from_disk_cache {
        Some(b) => b,
        None => false,
    };
    let from_sw = match event.from_service_worker {
        Some(b) => b,
        None => false,
    };
    let ResponseReceivedEvent {
        request_id,
        resource_type,
        status,
        status_text,
        headers,
        mime_type,
        protocol,
        remote_ip_address,
        remote_port,
        from_disk_cache: _,
        from_service_worker: _,
        encoded_data_length,
    } = event;
    proof {
        use_type_invariant(&*capture);
    }
    let mut reqs: Vec<CapturedNetworkRequest> = Vec::new();
    std::mem::swap(&mut reqs, &mut capture.requests);
    match position_of(reqs.as_slice(), request_id.as_str()) {
        Some(i) => {
            let ghost before = reqs@;
            let entry = &mut reqs[i];
            entry.resource_type = Some(resource_type);
            entry.response_status = Some(status);
            entry.response_status_text = Some(status_text);
            entry.response_headers = Some(headers);
            entry.mime_type = Some(mime_type);
            entry.protocol = protocol;
            entry.remote_ip_address = remote_ip_address;
            entry.remote_port = remote_port;
            entry.from_disk_cache = from_disk;
            entry.from_service_worker = from_sw;
            entry.encoded_data_length = Some(encoded_data_length);
            proof {
                assert(reqs@ =~= before.update(i as int, request_responded(before[i as int], ev)));
                lemma_update_keeps_distinct(before, i as int, request_responded(before[i as int], ev));
            }
        },
        None => {},
    }
    capture.requests = reqs;
}

/// Records a `loadingFinished` for a known request; an unknown id changes nothing.
pub fn apply_loading_finished(capture: &mut NetworkCapture, event: LoadingFinishedEvent)
    ensures
        ids_distinct(final(capture)@),
        final(capture)@ == after_finished(old(capture)@, event),
{
    let ghost ev = event;
    proof {
        use_type_invariant(&*capture);
    }
    let mut reqs: Vec<CapturedNetworkRequest> = Vec::new();
    std::mem::swap(&mut reqs, &mut capture.requests);
    match position_of(reqs.as_slice(), event.request_id.as_str()) {
        Some(i) => {
            let ghost before = reqs@;
            let entry = &mut reqs[i];
            entry.encoded_data_length = Some(event.encoded_data_length);
            entry.finished = true;
            proof {
                assert(reqs@ =~= before.update(i as int, request_finished(before[i as int], ev)));
                lemma_update_keeps_distinct(before, i as int, request_finished(before[i as int], ev));
            }
        },
        None => {},
    }
    capture.requests = reqs;
}

/// Records a `loadingFailed` for a known request; an unknown id changes nothing.
pub fn apply_loading_failed(capture: &mut NetworkCapture, event: LoadingFailedEvent)
    ensures
        ids_distinct(final(capture)@),
        final(capture)@ == after_failed(old(capture)@, event),
{
    let ghost ev = event;
    let canceled = match event.canceled {
        Some(b) => b,
        None => false,
    };
    let LoadingFailedEvent { request_id, resource_type, error_text, canceled: _ } = event;
    proof {
        use_type_invariant(&*capture);
    }
    let mut reqs: Vec<CapturedNetworkRequest> = Vec::new();
    std::mem::swap(&mut reqs, &mut capture.requests);
    match position_of(reqs.as_slice(), request_id.as_str()) {
        Some(i) => {
            let ghost before = reqs@;
            let entry = &mut reqs[i];
            entry.resource_type = Some(resource_type);
            entry.failed = true;
            entry.canceled = canceled;
            entry.error_text = Some(error_text);
            entry.finished = true;
            proof {
                assert(reqs@ =~= before.update(i as int, request_failed(before[i as int], ev)));
                lemma_update_keeps_distinct(before, i as int, request_failed(before[i as int], ev));
            }
        },
        None => {},
    }
    capture.requests = reqs;
}

/// Records any network event.
pub fn apply_network_event(capture: &mut NetworkCapture, event: NetworkEvent)
    ensures
        ids_distinct(final(capture)@),
        final(capture)@ == after_event(old(capture)@, event),
{
    match event {
        NetworkEvent::RequestWillBeSent(e) => upsert_request_event(capture, e),
        NetworkEvent::ResponseReceived(e) => apply_response_event(capture, e),
        NetworkEvent::LoadingFinished(e) => apply_loading_finished(capture, e),
        NetworkEvent::LoadingFailed(e) => apply_loading_failed(capture, e),
    }
}

// ---------------------------------------------------------------------------
// Laws of the capture
// ---------------------------------------------------------------------------

proof fn lemma_index_of_known(reqs: Seq<CapturedNetworkRequest>, id: Seq<char>)
    requires
        ids_distinct(reqs),
        has_request(reqs, id),
    ensures
        0 <= request_index(reqs, id) < reqs.len(),
        reqs[request_index(reqs, id)].request_id@ == id,
{
    let w = choose|i: int| 0 <= i < reqs.len() && #[trigger] reqs[i].request_id@ == id;
    assert forall|k: int| 0 <= k < w implies #[trigger] reqs[k].request_id@ != id by {
        assert(reqs[k].request_id@ != reqs[w].request_id@);
    }
}

proof fn lemma_ids_contains(reqs: Seq<CapturedNetworkRequest>, id: Seq<char>)
    ensures
        request_ids(reqs).contains(id) == has_request(reqs, id),
{
    if has_request(reqs, id) {
        let w = choose|i: int| 0 <= i < reqs.len() && #[trigger] reqs[i].request_id@ == id;
        assert(request_ids(reqs)[w] == id);
    }
    if request_ids(reqs).contains(id) {
        let w = choose|i: int| 0 <= i < request_ids(reqs).len() && request_ids(reqs)[i] == id;
        assert(reqs[w].request_id@ == id);
    }
}

proof fn lemma_update_same_id(reqs: Seq<CapturedNetworkRequest>, i: int, r: CapturedNetworkRequest)
    requires
        ids_distinct(reqs),
        0 <= i < reqs.len(),
        r.request_id@ == reqs[i].request_id@,
    ensures
        ids_distinct(reqs.update(i, r)),
        request_ids(reqs.update(i, r)) == request_ids(reqs),
{
    lemma_update_keeps_distinct(reqs, i, r);
    assert(request_ids(reqs.update(i, r)) =~= request_ids(reqs));
}

/// What one event does to the list of ids: a `requestWillBeSent` with a new id
/// appends it, every other event leaves the ids as they were; no id ever
/// occurs twice.
pub proof fn lemma_event_ids(reqs: Seq<CapturedNetworkRequest>, ev: NetworkEvent)
    requires
        ids_distinct(reqs),
    ensures
        ids_distinct(after_event(reqs, ev)),
        request_ids(after_event(reqs, ev)) == match ev {
            NetworkEvent::RequestWillBeSent(e) => if request_ids(reqs).contains(e.request_id@) {
                request_ids(reqs)
            } else {
                request_ids(reqs).push(e.request_id@)
            },
            _ => request_ids(reqs),
        },
{
    match ev {
        NetworkEvent::RequestWillBeSent(e) => {
            lemma_ids_contains(reqs, e.request_id@);
            if has_request(reqs, e.request_id@) {
                lemma_index_of_known(reqs, e.request_id@);
                let i = request_index(reqs, e.request_id@);
                lemma_update_same_id(reqs, i, request_resent(reqs[i], e));
            } else {
                let u = reqs.push(request_from_event(e));
                assert(request_ids(u) =~= request_ids(reqs).push(e.request_id@));
                assert forall|a: int, b: int| 0 <= a < b < u.len() implies #[trigger] u[a].request_id@
                    != #[trigger] u[b].request_id@ by {
                    if b == u.len() - 1 {
                        assert(reqs[a].request_id@ != e.request_id@);
                    } else {
                        assert(reqs[a].request_id@ != reqs[b].request_id@);
                    }
                }
            }
        },
        NetworkEvent::ResponseReceived(e) => {
            if has_request(reqs, e.request_id@) {
                lemma_index_of_known(reqs, e.request_id@);
                let i = request_index(reqs, e.request_id@);
                lemma_update_same_id(reqs, i, request_responded(reqs[i], e));
            }
        },
        NetworkEvent::LoadingFinished(e) => {
            if has_request(reqs, e.request_id@) {
                lemma_index_of_known(reqs, e.request_id@);
                let i = request_index(reqs, e.request_id@);
                lemma_update_same_id(reqs, i, request_finished(reqs[i], e));
            }
        },
        NetworkEvent::LoadingFailed(e) => {
            if has_request(reqs, e.request_id@) {
                lemma_index_of_known(reqs, e.request_id@);
                let i = request_index(reqs, e.request_id@);
                lemma_update_same_id(reqs, i, request_failed(reqs[i], e));
            }
        },
    }
}

/// Capture order: after any sequence of events, the captured requests are the
/// earlier ones followed by one request for each newly seen id, in the order
/// in which each id's first `requestWillBeSent` arrived; no id occurs twice.
pub proof fn lemma_capture_order(reqs: Seq<CapturedNetworkRequest>, evs: Seq<NetworkEvent>)
    requires
        ids_distinct(reqs),
    ensures
        ids_distinct(after_events(reqs, evs)),
        request_ids(after_events(reqs, evs)) == first_seen_ids(request_ids(reqs), evs),
    decreases evs.len(),
{
    if evs.len() > 0 {
        lemma_capture_order(reqs, evs.drop_last());
        lemma_event_ids(after_events(reqs, evs.drop_last()), evs.last());
    }
}

/// Events other than `requestWillBeSent` never add a request: one that names
/// an id not captured so far leaves the capture exactly as it was.
pub proof fn lemma_unknown_id_ignored(reqs: Seq<CapturedNetworkRequest>, ev: NetworkEvent)
    requires
        !(ev is RequestWillBeSent),
        !has_request(reqs, event_request_id(ev)),
    ensures
        after_event(reqs, ev) == reqs,
{
}

/// A response is recorded on its request, field by field: the request with
/// the event's id gets the event's resource type, status, status text,
/// headers, media type, protocol, remote address and port, cache flags (absent
/// meaning false) and encoded length; what was learned of the request itself
/// and of its loading stays; every other request, and the order, stay as they
/// were.
pub proof fn lemma_response_recorded(reqs: Seq<CapturedNetworkRequest>, ev: ResponseReceivedEvent)
    requires
        ids_distinct(reqs),
        has_request(reqs, ev.request_id@),
    ensures
        after_response(reqs, ev).len() == reqs.len(),
        forall|j: int|
            0 <= j < reqs.len() && reqs[j].request_id@ != ev.request_id@ ==> #[trigger] after_response(
                reqs,
                ev,
            )[j] == reqs[j],
        exists|i: int| 0 <= i < reqs.len() && reqs[i].request_id@ == ev.request_id@,
        forall|i: int|
            0 <= i < reqs.len() && reqs[i].request_id@ == ev.request_id@ ==> {
                let r = #[trigger] after_response(reqs, ev)[i];
                let o = reqs[i];
                &&& r.request_id == o.request_id
                &&& r.resource_type == Some(ev.resource_type)
                &&& r.response_status == Some(ev.status)
                &&& r.response_status_text == Some(ev.status_text)
                &&& r.response_headers == Some(ev.headers)
                &&& r.mime_type == Some(ev.mime_type)
                &&& r.protocol == ev.protocol
                &&& r.remote_ip_address == ev.remote_ip_address
                &&& r.remote_port == ev.remote_port
                &&& r.from_disk_cache == (ev.from_disk_cache == Some(true))
                &&& r.from_service_worker == (ev.from_service_worker == Some(true))
                &&& r.encoded_data_length == Some(ev.encoded_data_length)
                &&& r.document_url == o.document_url
                &&& r.url == o.url
                &&& r.method == o.method
                &&& r.initiator_type == o.initiator_type
                &&& r.initiator_url == o.initiator_url
                &&& r.request_headers == o.request_headers
                &&& r.has_post_data == o.has_post_data
                &&& r.post_data == o.post_data
                &&& r.failed == o.failed
                &&& r.canceled == o.canceled
                &&& r.error_text == o.error_text
                &&& r.finished == o.finished
            },
{
    lemma_index_of_known(reqs, ev.request_id@);
    let k = request_index(reqs, ev.request_id@);
    assert forall|i: int| 0 <= i < reqs.len() && reqs[i].request_id@ == ev.request_id@ implies i == k by {
        if i != k {
            assert(reqs[i].request_id@ != reqs[k].request_id@);
        }
    }
}

/// A finished load is recorded on its request: it is marked finished with
/// the event's encoded length, and nothing else of any request changes.
pub proof fn lemma_finish_recorded(reqs: Seq<CapturedNetworkRequest>, ev: LoadingFinishedEvent)
    requires
        ids_distinct(reqs),
        has_request(reqs, ev.request_id@),
    ensures
        after_finished(reqs, ev).len() == reqs.len(),
        forall|j: int|
            0 <= j < reqs.len() && reqs[j].request_id@ != ev.request_id@ ==> #[trigger] after_finished(
                reqs,
                ev,
            )[j] == reqs[j],
        forall|i: int|
            0 <= i < reqs.len() && reqs[i].request_id@ == ev.request_id@ ==> #[trigger] after_finished(
                reqs,
                ev,
            )[i] == (CapturedNetworkRequest {
                encoded_data_length: Some(ev.encoded_data_length),
                finished: true,
                ..reqs[i]
            }),
{
    lemma_index_of_known(reqs, ev.request_id@);
    let k = request_index(reqs, ev.request_id@);
    assert forall|i: int| 0 <= i < reqs.len() && reqs[i].request_id@ == ev.request_id@ implies i == k by {
        if i != k {
            assert(reqs[i].request_id@ != reqs[k].request_id@);
        }
    }
}

/// A failed load is recorded on its request: it is marked failed and
/// finished, with the event's resource type, error text and cancel flag
/// (absent meaning false); nothing else of any request changes.
pub proof fn lemma_failure_recorded(reqs: Seq<CapturedNetworkRequest>, ev: LoadingFailedEvent)
    requires
        ids_distinct(reqs),
        has_request(reqs, ev.request_id@),
    ensures
        after_failed(reqs, ev).len() == reqs.len(),
        forall|j: int|
            0 <= j < reqs.len() && reqs[j].request_id@ != ev.request_id@ ==> #[trigger] after_failed(
                reqs,
                ev,
            )[j] == reqs[j],
        forall|i: int|
            0 <= i < reqs.len() && reqs[i].request_id@ == ev.request_id@ ==> #[trigger] after_failed(
                reqs,
                ev,
            )[i] == (CapturedNetworkRequest {
                resource_type: Some(ev.resource_type),
                failed: true,
                canceled: ev.canceled == Some(true),
                error_text: Some(ev.error_text),
                finished: true,
                ..reqs[i]
            }),
{
    lemma_index_of_known(reqs, ev.request_id@);
    let k = request_index(reqs, ev.request_id@);
    assert forall|i: int| 0 <= i < reqs.len() && reqs[i].request_id@ == ev.request_id@ implies i == k by {
        if i != k {
            assert(reqs[i].request_id@ != reqs[k].request_id@);
        }
    }
}

/// A further `requestWillBeSent` for a known request updates it in place:
/// its request fields become the event's, its post data is forgotten, and a
/// redirect also forgets everything learned of the earlier response and
/// loading, which otherwise stays; every other request stays as it was.
pub proof fn lemma_resent_request_recorded(reqs: Seq<CapturedNetworkRequest>, ev: RequestWillBeSentEvent)
    requires
        ids_distinct(reqs),
        has_request(reqs, ev.request_id@),
    ensures
        after_request_sent(reqs, ev).len() == reqs.len(),
        forall|j: int|
            0 <= j < reqs.len() && reqs[j].request_id@ != ev.request_id@ ==> #[trigger] after_request_sent(
                reqs,
                ev,
            )[j] == reqs[j],
        forall|i: int|
            0 <= i < reqs.len() && reqs[i].request_id@ == ev.request_id@ ==> {
                let r = #[trigger] after_request_sent(reqs, ev)[i];
                let o = reqs[i];
                &&& r.request_id == o.request_id
                &&& r.document_url == ev.document_url
                &&& r.url == ev.url
                &&& r.method == ev.method
                &&& r.resource_type == ev.resource_type
                &&& r.initiator_type == ev.initiator_type
                &&& r.initiator_url == ev.initiator_url
                &&& r.request_headers == ev.headers
                &&& r.has_post_data == (ev.has_post_data == Some(true) || (ev.has_post_data is None
                    && ev.post_data_entry_count is Some && ev.post_data_entry_count->0 > 0))
                &&& r.post_data is None
                &&& ev.redirect ==> {
                    &&& r.response_status is None
                    &&& r.response_status_text is None
                    &&& r.response_headers is None
                    &&& r.mime_type is None
                    &&& r.protocol is None
                    &&& r.remote_ip_address is None
                    &&& r.remote_port is None
                    &&& !r.from_disk_cache
                    &&& !r.from_service_worker
                    &&& r.encoded_data_length is None
                    &&& !r.failed
                    &&& !r.canceled
                    &&& r.error_text is None
                    &&& !r.finished
                }
                &&& !ev.redirect ==> {
                    &&& r.response_status == o.response_status
                    &&& r.response_status_text == o.response_status_text
                    &&& r.response_headers == o.response_headers
                    &&& r.mime_type == o.mime_type
                    &&& r.protocol == o.protocol
                    &&& r.remote_ip_address == o.remote_ip_address
                    &&& r.remote_port == o.remote_port
                    &&& r.from_disk_cache == o.from_disk_cache
                    &&& r.from_service_worker == o.from_service_worker
                    &&& r.encoded_data_length == o.encoded_data_length
                    &&& r.failed == o.failed
                    &&& r.canceled == o.canceled
                    &&& r.error_text == o.error_text
                    &&& r.finished == o.finished
                }
            },
{
    lemma_index_of_known(reqs, ev.request_id@);
    let k = request_index(reqs, ev.request_id@);
    assert forall|i: int| 0 <= i < reqs.len() && reqs[i].request_id@ == ev.request_id@ implies i == k by {
        if i != k {
            assert(reqs[i].request_id@ != reqs[k].request_id@);
        }
    }
}

/// A request seen for the first time is appended with the event's request
/// fields, post data announced by the flag or else by a non-empty entry
/// list, and nothing yet known of its response or loading.
pub proof fn lemma_new_request_recorded(reqs: Seq<CapturedNetworkRequest>, ev: RequestWillBeSentEvent)
    requires
        !has_request(reqs, ev.request_id@),
    ensures
        after_request_sent(reqs, ev).len() == reqs.len() + 1,
        after_request_sent(reqs, ev).take(reqs.len() as int) == reqs,
        ({
            let r = after_request_sent(reqs, ev).last();
            &&& r.request_id == ev.request_id
            &&& r.document_url == ev.document_url
            &&& r.url == ev.url
            &&& r.method == ev.method
            &&& r.resource_type == ev.resource_type
            &&& r.initiator_type == ev.initiator_type
            &&& r.initiator_url == ev.initiator_url
            &&& r.request_headers == ev.headers
            &&& r.has_post_data == (ev.has_post_data == Some(true) || (ev.has_post_data is None
                && ev.post_data_entry_count is Some && ev.post_data_entry_count->0 > 0))
            &&& r.post_data is None
            &&& r.response_status is None
            &&& r.response_status_text is None
            &&& r.response_headers is None
            &&& r.mime_type is None
            &&& r.protocol is None
            &&& r.remote_ip_address is None
            &&& r.remote_port is None
            &&& !r.from_disk_cache
            &&& !r.from_service_worker
            &&& r.encoded_data_length is None
            &&& !r.failed
            &&& !r.canceled
            &&& r.error_text is None
            &&& !r.finished
        }),
{
    assert(after_request_sent(reqs, ev).take(reqs.len() as int) =~= reqs);
}

/// The request id an event refers to.
pub open spec fn event_request_id(ev: NetworkEvent) -> Seq<char> {
    match ev {
        NetworkEvent::RequestWillBeSent(e) => e.request_id@,
        NetworkEvent::ResponseReceived(e) => e.request_id@,
        NetworkEvent::LoadingFinished(e) => e.request_id@,
        NetworkEvent::LoadingFailed(e) => e.request_id@,
    }
}

// ---------------------------------------------------------------------------
// Selecting one captured request
// ---------------------------------------------------------------------------

/// How a request was picked out of the capture.
#[derive(Debug, Clone, Copy, PartialEq, Eq, Structural)]
pub enum NetworkMatchKind {
    RequestId,
    UrlPattern,
}

/// Why no captured request could be picked.
#[derive(Debug)]
pub enum NetworkSelectError {
    /// Neither a request id nor any URL matched the given text.
    NoMatch(String),
}

impl NetworkSelectError {
    /// The text shown to the user for this error.
    pub fn message(&self) -> (m: String)
        ensures
            match self {
                NetworkSelectError::NoMatch(p) => m@ == "No captured request matched '"@ + p@
                    + "'. Use 'chromium-bridge network list' to inspect request ids."@,
            },
    {
        match self {
            NetworkSelectError::NoMatch(p) => {
                let mut m = String::from_str("No captured request matched '");
                push_str(&mut m, p.as_str());
                push_str(&mut m, "'. Use 'chromium-bridge network list' to inspect request ids.");
                m
            },
        }
    }
}

/// How many captured requests have a URL containing `pat`.
pub open spec fn url_match_count(reqs: Seq<CapturedNetworkRequest>, pat: Seq<char>) -> nat
    decreases reqs.len(),
{
    if reqs.len() == 0 {
        0
    } else {
        url_match_count(reqs.drop_last(), pat) + if contains_seq(reqs.last().url@, pat) {
            1nat
        } else {
            0nat
        }
    }
}

/// The position of the last captured request whose URL contains `pat`, or -1.
pub open spec fn last_url_match(reqs: Seq<CapturedNetworkRequest>, pat: Seq<char>) -> int
    decreases reqs.len(),
{
    if reqs.len() == 0 {
        -1
    } else if contains_seq(reqs.last().url@, pat) {
        reqs.len() - 1
    } else {
        last_url_match(reqs.drop_last(), pat)
    }
}

proof fn lemma_last_url_match_bounds(reqs: Seq<CapturedNetworkRequest>, pat: Seq<char>)
    ensures
        -1 <= last_url_match(reqs, pat) < reqs.len(),
        (last_url_match(reqs, pat) == -1) == (url_match_count(reqs, pat) == 0),
    decreases reqs.len(),
{
    if reqs.len() > 0 {
        lemma_last_url_match_bounds(reqs.drop_last(), pat);
    }
}

/// URL matching: the count is the number of captured requests whose URL
/// contains the pattern, and the match picked is the latest such request
/// (-1 when there is none).
pub proof fn lemma_url_match_exact(reqs: Seq<CapturedNetworkRequest>, pat: Seq<char>)
    ensures
        url_match_count(reqs, pat) == reqs.filter(
            |r: CapturedNetworkRequest| contains_seq(r.url@, pat),
        ).len(),
        last_url_match(reqs, pat) == -1 ==> forall|k: int|
            0 <= k < reqs.len() ==> !contains_seq(#[trigger] reqs[k].url@, pat),
        last_url_match(reqs, pat) != -1 ==> {
            let l = last_url_match(reqs, pat);
            &&& 0 <= l < reqs.len()
            &&& contains_seq(reqs[l].url@, pat)
            &&& forall|k: int| l < k < reqs.len() ==> !contains_seq(#[trigger] reqs[k].url@, pat)
        },
    decreases reqs.len(),
{
    reveal(Seq::filter);
    if reqs.len() > 0 {
        lemma_url_match_exact(reqs.drop_last(), pat);
        assert forall|k: int| 0 <= k < reqs.len() - 1 implies #[trigger] reqs[k] == reqs.drop_last()[k] by {}
        assert(reqs[reqs.len() - 1] == reqs.last());
    }
}

/// Picks the request that `matcher` names: the first one whose id equals it;
/// failing that, the last one whose URL contains it, together with how many
/// URLs contained it.
pub fn select_network_request<'a>(requests: &'a [CapturedNetworkRequest], matcher: &str) -> (r:
    Result<(&'a CapturedNetworkRequest, NetworkMatchKind, usize), NetworkSelectError>)
    ensures
        r is Ok <==> (has_request(requests@, matcher@) || url_match_count(requests@, matcher@) > 0),
        match r {
            Ok((m, kind, count)) => if has_request(requests@, matcher@) {
                &&& *m == requests@[request_index(requests@, matcher@)]
                &&& kind == NetworkMatchKind::RequestId
                &&& count == 1
            } else {
                &&& *m == requests@[last_url_match(requests@, matcher@)]
                &&& kind == NetworkMatchKind::UrlPattern
                &&& count == url_match_count(requests@, matcher@)
            },
            Err(NetworkSelectError::NoMatch(p)) => p@ == matcher@,
        },
{
    if let Some(i) = position_of(requests, matcher) {
        return Ok((&requests[i], NetworkMatchKind::RequestId, 1));
    }
    let n = requests.len();
    let mut count: usize = 0;
    let mut last: Option<usize> = None;
    let mut i: usize = 0;
    while i < n
        invariant
            n == requests@.len(),
            i <= n,
            count <= i,
            count as nat == url_match_count(requests@.take(i as int), matcher@),
            match last {
                Some(j) => j as int == last_url_match(requests@.take(i as int), matcher@),
                None => last_url_match(requests@.take(i as int), matcher@) == -1,
            },
        decreases n - i,
    {
        assert(requests@.take(i + 1).drop_last() =~= requests@.take(i as int));
        assert(requests@.take(i + 1).last() == requests@[i as int]);
        if str_contains(requests[i].url.as_str(), matcher) {
            count = count + 1;
            last = Some(i);
        }
        i = i + 1;
    }
    assert(requests@.take(n as int) =~= requests@);
    proof {
        lemma_last_url_match_bounds(requests@, matcher@);
    }
    match last {
        Some(j) => Ok((&requests[j], NetworkMatchKind::UrlPattern, count)),
        None => Err(NetworkSelectError::NoMatch(String::from_str(matcher))),
    }
}

/// The label of a match kind in machine-readable output.
pub fn match_kind_label(kind: NetworkMatchKind) -> (s: String)
    ensures
        s@ == match kind {
            NetworkMatchKind::RequestId => "requestId"@,
            NetworkMatchKind::UrlPattern => "urlPattern"@,
        },
{
    match kind {
        NetworkMatchKind::RequestId => String::from_str("requestId"),
        NetworkMatchKind::UrlPattern => String::from_str("urlPattern"),
    }
}

// ---------------------------------------------------------------------------
// Summaries and labels
// ---------------------------------------------------------------------------

/// The part of a captured request that listings show.
#[derive(Debug)]
pub struct NetworkRequestSummary {
    pub request_id: String,
    pub document_url: String,
    pub url: String,
    pub method: String,
    pub resource_type: Option<String>,
    pub initiator_type: String,
    pub initiator_url: Option<String>,
    pub status: Option<i64>,
    pub status_text: Option<String>,
    pub mime_type: Option<String>,
    pub protocol: Option<String>,
    pub remote_ip_address: Option<String>,
    pub remote_port: Option<i64>,
    pub from_disk_cache: bool,
    pub from_service_worker: bool,
    /// IEEE-754 bit pattern of the encoded length.
    pub encoded_data_length: Option<u64>,
    pub failed: bool,
    pub canceled: bool,
    pub error_text: Option<String>,
    pub finished: bool,
}

pub(crate) fn clone_opt(o: &Option<String>) -> (r: Option<String>)
    ensures
        r == *o,
{
    match o {
        Some(s) => Some(s.clone()),
        None => None,
    }
}

/// The summary of a captured request: the same values, without headers and
/// post data.
pub fn network_summary(entry: &CapturedNetworkRequest) -> (s: NetworkRequestSummary)
    ensures
        s.request_id == entry.request_id,
        s.document_url == entry.document_url,
        s.url == entry.url,
        s.method == entry.method,
        s.resource_type == entry.resource_type,
        s.initiator_type == entry.initiator_type,
        s.initiator_url == entry.initiator_url,
        s.status == entry.response_status,
        s.status_text == entry.response_status_text,
        s.mime_type == entry.mime_type,
        s.protocol == entry.protocol,
        s.remote_ip_address == entry.remote_ip_address,
        s.remote_port == entry.remote_port,
        s.from_disk_cache == entry.from_disk_cache,
        s.from_service_worker == entry.from_service_worker,
        s.encoded_data_length == entry.encoded_data_length,
        s.failed == entry.failed,
        s.canceled == entry.canceled,
        s.error_text == entry.error_text,
        s.finished == entry.finished,
{
    NetworkRequestSummary {
        request_id: entry.request_id.clone(),
        document_url: entry.document_url.clone(),
        url: entry.url.clone(),
        method: entry.method.clone(),
        resource_type: clone_opt(&entry.resource_type),
        initiator_type: entry.initiator_type.clone(),
        initiator_url: clone_opt(&entry.initiator_url),
        status: entry.response_status,
        status_text: clone_opt(&entry.response_status_text),
        mime_type: clone_opt(&entry.mime_type),
        protocol: clone_opt(&entry.protocol),
        remote_ip_address: clone_opt(&entry.remote_ip_address),
        remote_port: entry.remote_port,
        from_disk_cache: entry.from_disk_cache,
        from_service_worker: entry.from_service_worker,
        encoded_data_length: entry.encoded_data_length,
        failed: entry.failed,
        canceled: entry.canceled,
        error_text: clone_opt(&entry.error_text),
        finished: entry.finished,
    }
}

/// The status word of a request in listings.
pub open spec fn status_label(failed: bool, status: Option<i64>, finished: bool) -> Seq<char> {
    if failed {
        "failed"@
    } else if status is Some {
        signed_decimal(status->0 as int)
    } else if finished {
        "done"@
    } else {
        "pending"@
    }
}

/// The status word of a summarized request: "failed", the HTTP status,
/// "done" or "pending", in that order of precedence.
pub fn request_status_label(request: &NetworkRequestSummary) -> (s: String)
    ensures
        s@ == status_label(request.failed, request.status, request.finished),
{
    if request.failed {
        String::from_str("failed")
    } else if let Some(status) = request.status {
        let mut s = String::new();
        push_signed_decimal(&mut s, status);
        assert(s@ =~= signed_decimal(status as int));
        s
    } else if request.finished {
        String::from_str("done")
    } else {
        String::from_str("pending")
    }
}

/// The status shown when inspecting a request: the HTTP status followed by
/// its text when there is one, or "n/a" when no response came.
pub open spec fn status_detail(status: Option<i64>, status_text: Option<Seq<char>>) -> Seq<char> {
    match status {
        Some(code) => match status_text {
            Some(t) => signed_decimal(code as int) + " "@ + t,
            None => signed_decimal(code as int),
        },
        None => "n/a"@,
    }
}

/// The status line of an inspected request.
pub fn request_status_detail(request: &NetworkRequestSummary) -> (s: String)
    ensures
        s@ == status_detail(request.status, opt_string_view(request.status_text)),
{
    match request.status {
        Some(code) => {
            let mut s = String::new();
            push_signed_decimal(&mut s, code);
            match &request.status_text {
                Some(t) => {
                    push_str(&mut s, " ");
                    push_str(&mut s, t.as_str());
                },
                None => {},
            }
            assert(s@ =~= status_detail(request.status, opt_string_view(request.status_text)));
            s
        },
        None => String::from_str("n/a"),
    }
}

/// How many of `total` captured requests a listing shows: all of them, or
/// at most `limit` when one is given.
pub fn shown_request_count(total: usize, limit: Option<usize>) -> (n: usize)
    ensures
        n == match limit {
            Some(l) => if l < total {
                l
            } else {
                total
            },
            None => total,
        },
{
    match limit {
        Some(l) => if l < total {
            l
        } else {
            total
        },
        None => total,
    }
}

// ---------------------------------------------------------------------------
// Driving a capture
// ---------------------------------------------------------------------------

/// What brought on the page load: a navigation to a URL, or a reload.
pub fn capture_trigger(url: Option<&str>) -> (s: String)
    ensures
        s@ == match url {
            Some(u) => "navigate:"@ + u@,
            None => "reload"@,
        },
{
    match url {
        Some(u) => {
            let mut s = String::from_str("navigate:");
            push_str(&mut s, u);
            s
        },
        None => String::from_str("reload"),
    }
}

/// What the capture loop does next.
#[derive(Debug, Clone, Copy, PartialEq, Eq, Structural)]
pub enum CaptureStep {
    /// Keep waiting for events.
    Continue,
    /// Stop and report what was captured.
    Finished,
    /// Stop with an error: the page never finished loading.
    TimedOut,
}

/// The decision taken before waiting for the next event: once the page has
/// loaded and nothing happened for `idle_ms`, the capture is done; when the
/// whole capture took `capture_timeout_ms`, it ends, with an error when the
/// page never loaded.
pub fn capture_step(
    saw_load: bool,
    idle_elapsed_ms: u64,
    total_elapsed_ms: u64,
    idle_ms: u64,
    capture_timeout_ms: u64,
) -> (step: CaptureStep)
    ensures
        step == if saw_load && idle_elapsed_ms >= idle_ms {
            CaptureStep::Finished
        } else if total_elapsed_ms >= capture_timeout_ms {
            if saw_load {
                CaptureStep::Finished
            } else {
                CaptureStep::TimedOut
            }
        } else {
            CaptureStep::Continue
        },
{
    if saw_load && idle_elapsed_ms >= idle_ms {
        return CaptureStep::Finished;
    }
    if total_elapsed_ms >= capture_timeout_ms {
        if !saw_load {
            return CaptureStep::TimedOut;
        }
        return CaptureStep::Finished;
    }
    CaptureStep::Continue
}

/// The error reported when the page never loaded within the capture timeout.
pub open spec fn capture_timeout_text(capture_timeout_ms: nat) -> Seq<char> {
    "Timed out waiting for page load after "@ + decimal(capture_timeout_ms) + "ms"@
}

/// The error text for `CaptureStep::TimedOut`.
pub fn capture_timeout_message(capture_timeout_ms: u64) -> (m: String)
    ensures
        m@ == capture_timeout_text(capture_timeout_ms as nat),
{
    let mut m = String::new();
    push_str(&mut m, "Timed out waiting for page load after ");
    push_decimal(&mut m, capture_timeout_ms);
    push_str(&mut m, "ms");
    assert(m@ =~= capture_timeout_text(capture_timeout_ms as nat));
    m
}

/// Where the request body for the inspected request comes from.
#[derive(Debug)]
pub enum PostDataPlan {
    /// The capture already holds it.
    Captured(String),
    /// The browser said there is one: ask for it.
    Fetch,
    /// The request sent no body.
    NotSent,
}

/// How to obtain the request body of an inspected request.
pub fn post_data_plan(entry: &CapturedNetworkRequest) -> (p: PostDataPlan)
    ensures
        match entry.post_data {
            Some(d) => p matches PostDataPlan::Captured(c) && c == d,
            None => if entry.has_post_data {
                p is Fetch
            } else {
                p is NotSent
            },
        },
{
    match &entry.post_data {
        Some(d) => PostDataPlan::Captured(d.clone()),
        None => if entry.has_post_data {
            PostDataPlan::Fetch
        } else {
            PostDataPlan::NotSent
        },
    }
}

/// The note shown when a request announced a body that could not be obtained.
pub fn post_data_error(has_post_data: bool, post_data: &Option<String>) -> (e: Option<String>)
    ensures
        e is Some <==> (has_post_data && post_data is None),
        e matches Some(m) ==> m@ == "CDP did not retain request post data for this request"@,
{
    if has_post_data && post_data.is_none() {
        Some(String::from_str("CDP did not retain request post data for this request"))
    } else {
        None
    }
}

/// The note shown instead of a response body when no response was captured;
/// `None` when there was a response, whose body is then fetched.
pub fn missing_response_note(entry: &CapturedNetworkRequest) -> (e: Option<String>)
    ensures
        e is Some <==> entry.response_status is None,
        e matches Some(m) ==> m@ == "No HTTP response was captured for this request"@,
{
    if entry.response_status.is_some() {
        None
    } else {
        Some(String::from_str("No HTTP response was captured for this request"))
    }
}

} // verus!
