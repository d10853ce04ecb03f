use h5i_browser::command::{jar_unusable, no_file_base};
use h5i_browser::fetch::FetchOutcome;
use h5i_browser::identity::wrong_size;
use h5i_browser::opening::{
    could_not_submit, keep_failure, self_submission_failed, self_submitted,
};
use h5i_browser::place::{nowhere_to_look, unreadable_payload};
use h5i_browser::raw::{
    body_of, broken_burst, check_replayable, no_such_request, parse_raw_request, recall,
    sort_samples, stored_url, time_of, Stored, StoredBody, Timing,
};
use h5i_browser::receipt::{Initiator, RequestRecord};
use h5i_browser::url::Url;

fn url(s: &str) -> Url {
    Url::parse(s).expect("test url")
}

#[test]
fn what_cannot_be_used_is_named() {
    assert_eq!(
        jar_unusable("/tmp/jar", "not JSON"),
        "the cookie jar at `/tmp/jar` could not be used: not JSON"
    );
    assert_eq!(no_file_base("relative"), "relative cannot be expressed as a file:// base");
    assert_eq!(
        wrong_size("mobile", "the screen is 390 wide"),
        "the browser identity `mobile` cannot be used at this size:\n  the screen is 390 wide"
    );
    assert_eq!(
        nowhere_to_look(),
        "no session to talk to, and no per-user runtime directory to look in. Pass --control-file or --port, or set $XDG_RUNTIME_DIR or $HOME."
    );
    assert_eq!(
        unreadable_payload("body", "/x", "denied"),
        "`--set-file body`: /x could not be read: denied"
    );
}

#[test]
fn a_page_that_submits_by_itself_is_spoken_of() {
    let (from, to) = (url("https://a.test/"), url("https://b.test/go"));
    assert_eq!(
        could_not_submit(&to, "refused"),
        "could not submit to https://b.test/go: refused"
    );
    assert_eq!(
        self_submitted(&from, &to),
        "https://a.test/ submitted a form to https://b.test/go by itself, without anything being clicked, and this is the answer to that submission"
    );
    assert_eq!(
        self_submission_failed("no"),
        "this page tried to submit a form by itself: no"
    );
}

#[test]
fn the_first_layout_failure_is_the_one_that_is_kept() {
    assert_eq!(keep_failure(None, Ok(())), None);
    assert_eq!(keep_failure(None, Err("a".to_string())), Some("a".to_string()));
    assert_eq!(
        keep_failure(Some("a".to_string()), Err("b".to_string())),
        Some("a".to_string())
    );
    assert_eq!(keep_failure(Some("a".to_string()), Ok(())), Some("a".to_string()));
}

fn stored(at: &str, body: StoredBody) -> Option<Stored> {
    Some(Stored {
        method: "POST".to_string(),
        url: at.to_string(),
        headers: vec![("x-a".to_string(), "1".to_string())],
        body,
    })
}

#[test]
fn a_kept_request_is_recalled_as_it_was() {
    let kept = stored("https://a.test/x", StoredBody::Stored { truncated: false });
    let again = recall(3, true, kept, Ok(b"hi".to_vec())).expect("recalled");
    assert_eq!(again.method, "POST");
    assert_eq!(again.url.href, "https://a.test/x");
    assert_eq!(again.headers, vec![("x-a".to_string(), "1".to_string())]);
    assert_eq!(again.body, b"hi".to_vec());
    let empty = stored("https://a.test/x", StoredBody::Empty);
    let again = recall(3, true, empty, Err("never read".to_string())).expect("recalled");
    assert!(again.body.is_empty());
}

#[test]
fn a_request_that_cannot_be_recalled_says_why() {
    let refused = |capturing: bool, kept: Option<Stored>, bytes: Result<Vec<u8>, String>| {
        let e = recall(3, capturing, kept, bytes).expect_err("refused");
        (e.code, e.message)
    };
    let whole = || stored("https://a.test/x", StoredBody::Stored { truncated: false });
    assert_eq!(refused(false, whole(), Ok(Vec::new())).0, "no-capture");
    assert_eq!(
        refused(true, None, Ok(Vec::new())).1,
        "there is no stored request 3 in this session. `requests` lists the sequence numbers this session has"
    );
    let (code, message) = refused(true, stored("nowhere", StoredBody::Empty), Ok(Vec::new()));
    assert_eq!(code, "no-such-request");
    assert!(message.starts_with("stored request 3 has an unusable URL: "), "{message}");
    let cut = stored("https://a.test/x", StoredBody::Stored { truncated: true });
    assert_eq!(
        refused(true, cut, Ok(Vec::new())),
        (
            "unreplayable-body".to_string(),
            "stored request 3 was too large to keep whole, so replaying it would send a request that is not the one recorded".to_string()
        )
    );
    let skipped = stored("https://a.test/x", StoredBody::Skipped { reason: "Binary".to_string() });
    assert_eq!(
        refused(true, skipped, Ok(Vec::new())).1,
        "stored request 3's body was not kept (Binary), so there is nothing to replay"
    );
    assert_eq!(
        refused(true, whole(), Err("gone".to_string())).1,
        "stored request 3's body is not readable: gone"
    );
    assert_eq!(no_such_request(9).code, "no-such-request");
    assert!(check_replayable(9, &StoredBody::Empty).is_ok());
    assert_eq!(stored_url(9, "https://a.test/").expect("a URL").href, "https://a.test/");
    assert_eq!(broken_burst().code, "send-failed");
}

#[test]
fn samples_are_read_in_the_order_they_were_sent() {
    let sample = |seq: Option<u64>, total_ms: u64| Timing {
        seq,
        status: None,
        ttfb_ms: 0,
        total_ms,
        bytes: 0,
    };
    let sorted = sort_samples(vec![
        sample(Some(4), 1),
        sample(None, 2),
        sample(Some(2), 3),
        sample(None, 4),
    ]);
    let order: Vec<u64> = sorted.iter().map(|s| s.total_ms).collect();
    assert_eq!(order, vec![2, 4, 3, 1]);
}

#[test]
fn a_send_is_timed_by_the_log_where_it_got_that_far() {
    let request = RequestRecord::request(5, Initiator::Replay, "GET", "https://a.test/");
    let mut response = request.response();
    response.ttfb_ms = Some(12);
    let mut outcome = FetchOutcome::failed(url("https://a.test/"), String::new());
    outcome.seq = Some(5);
    outcome.status = Some(200);
    outcome.body = b"abc".to_vec();
    let timed = time_of(&outcome, &vec![request.clone(), response], 40);
    assert_eq!((timed.ttfb_ms, timed.total_ms, timed.bytes), (12, 40, 3));
    assert_eq!(time_of(&outcome, &vec![request], 40).ttfb_ms, 40);
}

#[test]
fn the_body_of_a_raw_request_is_what_follows_its_head() {
    let raw = parse_raw_request(
        url("https://a.test/"),
        b"POST / HTTP/1.1\r\nHost: a.test\r\n\r\nhello".to_vec(),
    )
    .expect("a request");
    assert_eq!(body_of(&raw), b"hello".to_vec());
}

#[test]
fn what_is_no_request_is_shown_with_its_escapes() {
    let why = parse_raw_request(url("https://a.test/"), b"G\"ET\r\n\r\n".to_vec())
        .expect_err("no request line");
    assert_eq!(
        why,
        "the raw request's first line is \"G\\\"ET\", not a `METHOD target HTTP/1.1` line"
    );
}
