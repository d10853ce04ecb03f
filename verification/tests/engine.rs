use h5i_browser::address::IpAddr;
use h5i_browser::broker::LocalBroker;
use h5i_browser::command::{page_options, ViewOptions};
use h5i_browser::dom::{
    enclosing_form, is_submit_control, link_above, link_at, prune_deep_nesting,
    seed_checkbox_state, select_option, set_checked, sift_frame, Checking, Document, Element, Node,
};
use h5i_browser::drive::{Action, Event, Sending};
use h5i_browser::fetch::{Answer, Fetch, FetchOutcome, WireRequest};
use h5i_browser::forms::{
    capture_submission, encode_form_body, encode_form_query, FormEntry, SelectOutcome, WaitTarget,
};
use h5i_browser::frames::{frame_source, FrameSource, Frames, MAX_FRAMES};
use h5i_browser::framing::{FrameReport, FrameTask, Framing};
use h5i_browser::markup::{
    attribute_value, challenge_marker, declared_content_type, defuse_attribute, is_javascript_url,
    meta_refresh, seconds_of, strip_image_sources, worth_warming,
};
use h5i_browser::opening::{
    built_notes, could_not_open, layout_failure, no_submission, self_submission, snapshot_notes,
    submission_fetch, Arrival, Opening, PageOptions, Reading, SelfSubmission, Spending,
};
use h5i_browser::pixels::{encode_jpeg, encode_png, flatten_onto_white, straighten};
use h5i_browser::policy::Policy;
use h5i_browser::receipt::Initiator;
use h5i_browser::scripts::{
    classic_fetch, key_changed, key_plan, may_start, module_fetch, needs_realm, phase_budget,
    plan_scripts, refuse_script, settle_budget, skipped_note, still_submits, submit_after_click,
    wait_is_met, wait_without_script, where_from, KeyAction, KeyEdit, ScriptElement, Settled,
    Source, WaitEnd,
};
use h5i_browser::url::Url;

fn url(s: &str) -> Url {
    Url::parse(s).expect("test url")
}

#[test]
fn the_prelude_is_warmed_only_where_the_bet_cannot_lose() {
    let scripted = PageOptions {
        script: true,
        ..Default::default()
    };
    let at = |s: &str| Url::parse(s).expect("url");

    // A remote page that may run script: the case the measurement covers,
    // where 92% of pages use the realm and the rest are slow enough to hide
    // the compile in anyway.
    assert!(worth_warming(&at("https://docs.example/guide"), &scripted));
    assert!(worth_warming(&at("http://docs.example/guide"), &scripted));

    // Scripting off means no realm is ever built, so this would be waste on
    // every page rather than on some.
    assert!(!worth_warming(&at("https://docs.example/"), &PageOptions::default()));

    // Nothing local. These answer in about a millisecond, so a scriptless
    // one would pay the whole compile as added latency.
    for local in [
        "http://localhost:3000/",
        "http://localhost./",
        "http://dev.localhost/",
        "http://127.0.0.1:8080/app",
        "http://127.13.9.4/",
        "http://[::1]:5173/",
        "file:///tmp/page.html",
        "data:text/html,<p>hi",
    ] {
        assert!(
            !worth_warming(&at(local), &scripted),
            "{local} has no wait to hide a 67ms compile in"
        );
    }

    // A name that merely looks like loopback is not loopback, and must not
    // lose the optimisation by string-matching.
    assert!(worth_warming(&at("http://127.0.0.1.evil.test/"), &scripted));
    assert!(worth_warming(&at("https://localhost.evil.test/"), &scripted));
}

// ------------------------------------------------------------------- pixels

/// Decode an encoded frame so a test can talk about pixels.
fn decoded(encoded: &[u8]) -> image::RgbImage {
    image::load_from_memory(encoded)
        .expect("the frame decodes")
        .to_rgb8()
}

/// What a renderer hands over for a page of 400 by 200 with one box painted in
/// its top left corner, premultiplied.
fn painted(width: u32, height: u32, fill: [u8; 4]) -> Vec<u8> {
    let mut out = Vec::new();
    for y in 0..200 {
        for x in 0..400 {
            if x < width && y < height {
                out.extend_from_slice(&fill);
            } else {
                out.extend_from_slice(&[0, 0, 0, 0]);
            }
        }
    }
    out
}

/// The bottom-right corner: past the end of any content these tests paint.
const CANVAS: (u32, u32) = (399, 199);

#[test]
fn screenshot_dimensions_follow_the_viewport() {
    let png = encode_png(&painted(0, 0, [0, 0, 0, 0]), 400, 200).expect("screenshot");
    // PNG IHDR carries width/height big-endian at a fixed offset.
    let width = u32::from_be_bytes([png[16], png[17], png[18], png[19]]);
    let height = u32::from_be_bytes([png[20], png[21], png[22], png[23]]);
    assert_eq!((width, height), (400, 200));
    assert!(png.starts_with(&[0x89, b'P', b'N', b'G']), "png magic");
}

#[test]
fn a_page_that_declares_no_background_renders_white_not_black() {
    let unpainted = painted(0, 0, [0, 0, 0, 0]);
    let png = decoded(&encode_png(&unpainted, 400, 200).expect("screenshot"));
    assert_eq!(png.get_pixel(CANVAS.0, CANVAS.1).0, [255, 255, 255]);
    let jpeg = decoded(&encode_jpeg(&unpainted, 400, 200, 90).expect("frame"));
    assert!(jpeg.get_pixel(CANVAS.0, CANVAS.1).0.iter().all(|&c| c > 250));
}

#[test]
fn black_content_stays_visible_against_the_canvas() {
    // The default text colour painted as a box has to survive the flatten as
    // black while the canvas around it stays white.
    let frame = encode_jpeg(&painted(100, 100, [0, 0, 0, 255]), 400, 200, 90).expect("frame");
    let img = decoded(&frame);
    let inside = img.get_pixel(50, 50).0;
    let outside = img.get_pixel(CANVAS.0, CANVAS.1).0;
    assert!(inside.iter().all(|&c| c < 5), "the black box: {inside:?}");
    assert!(outside.iter().all(|&c| c > 250), "the canvas: {outside:?}");
}

#[test]
fn a_translucent_fill_composites_onto_white_rather_than_darkening() {
    // The renderer's buffer is premultiplied, so a 50%-red fill arrives as
    // (128,0,0,128). Composited onto white it is the colour the page shows.
    let frame = encode_png(&painted(200, 100, [128, 0, 0, 128]), 400, 200).expect("screenshot");
    let [r, g, b] = decoded(&frame).get_pixel(100, 50).0;
    assert!(r > 250, "the red channel stays full, got {r}");
    assert!(
        (120..=135).contains(&g) && (120..=135).contains(&b),
        "green and blue should be lifted halfway to white, got {g} and {b}"
    );
}

#[test]
fn flattening_is_exact() {
    assert_eq!(
        flatten_onto_white(&[128, 0, 0, 128, 10, 20, 30, 255], 2, 1).unwrap(),
        vec![255, 127, 127, 10, 20, 30]
    );
    assert!(flatten_onto_white(&[0, 0, 0], 1, 1).is_err());
}

#[test]
fn a_premultiplied_canvas_is_straightened() {
    assert_eq!(
        straighten(&[64, 0, 0, 128, 9, 9, 9, 0, 1, 2, 3, 255]),
        vec![128, 0, 0, 128, 0, 0, 0, 0, 1, 2, 3, 255]
    );
}

// ------------------------------------------------------------------- frames

fn element(name: &str, attrs: &[(&str, &str)]) -> Element {
    Element {
        name: name.to_string(),
        attrs: attrs
            .iter()
            .map(|(n, v)| (n.to_string(), v.to_string()))
            .collect(),
        checked: None,
        other_state: false,
    }
}

/// A tree, written as each node's parent and element.
fn tree(nodes: &[(Option<usize>, Element)]) -> Document {
    let doc = Document {
        nodes: nodes
            .iter()
            .enumerate()
            .map(|(i, (parent, element))| Node {
                id: 100 + i,
                parent: *parent,
                element: Some(element.clone()),
                text: String::new(),
            })
            .collect(),
    };
    assert!(doc.is_wf());
    doc
}

#[test]
fn a_srcdoc_frame_is_flattened_and_its_script_never_runs() {
    let source = frame_source(
        Some("<form><input name=card><button>Pay</button></form><script>document.title='ran'</script>".to_string()),
        None,
    );
    assert!(matches!(source, FrameSource::Inline(_)));
    let doc = tree(&[
        (None, element("iframe", &[])),
        (Some(0), element("form", &[])),
        (Some(1), element("input", &[("name", "card")])),
        (Some(1), element("button", &[])),
        (Some(0), element("script", &[])),
    ]);
    let sifted = sift_frame(&doc, 0);
    assert_eq!(sifted.doomed, vec![104]);
    assert_eq!(sifted.scripts, 1);

    let mut frames = Frames::new();
    assert_eq!(frames.next_frame(&vec![100]), Some(100));
    frames.grafted(&sifted);
    let notes = frames.notes();
    assert!(
        notes.iter().any(|n| n.contains("loaded as content")),
        "the flattening is stated, not silent: {notes:?}"
    );
    assert!(notes[0].contains("written inline by this page"), "{notes:?}");
    assert!(notes[0].contains("(1 stripped)"), "{notes:?}");
}

#[test]
fn a_deeply_nested_page_does_not_take_the_process_down() {
    let depth = 5_000;
    let mut nodes = vec![(None, element("html", &[]))];
    for i in 0..depth {
        nodes.push((Some(i), element("div", &[])));
    }
    let pruned = prune_deep_nesting(&tree(&nodes));
    assert_eq!(pruned, vec![100 + 512], "one cut takes the rest with it");
    let notes = built_notes(pruned.len(), false);
    assert!(
        notes.iter().any(|n| n.contains("nests elements more than")),
        "the bound is said, not silently applied: {notes:?}"
    );
}

/// An ordinary page is nowhere near the bound, so it is untouched and says
/// nothing about depth.
#[test]
fn an_ordinarily_nested_page_is_not_pruned_or_annotated() {
    let mut nodes = vec![(None, element("html", &[]))];
    for i in 0..64 {
        nodes.push((Some(i), element("div", &[])));
    }
    nodes.push((Some(64), element("p", &[])));
    let pruned = prune_deep_nesting(&tree(&nodes));
    assert!(pruned.is_empty());
    let notes = built_notes(pruned.len(), false);
    assert!(
        !notes.iter().any(|n| n.contains("nests elements")),
        "{notes:?}"
    );
}

#[test]
fn a_frames_inline_handlers_are_script_and_do_not_run_either() {
    let doc = tree(&[
        (None, element("iframe", &[])),
        (
            Some(0),
            element("span", &[("id", "trap"), ("onclick", "pwned()")]),
        ),
        (Some(0), element("a", &[("href", "java\tscript:pwned()")])),
        (Some(0), element("a", &[("href", "/fine")])),
    ]);
    let sifted = sift_frame(&doc, 0);
    assert!(sifted.doomed.is_empty());
    assert_eq!(
        sifted.defused,
        vec![(101, "onclick".to_string()), (102, "href".to_string())]
    );
}

/// The same boundary, on the other road into it. A `javascript:` frame
/// *source* is refused by name; a `javascript:` link inside the flattened
/// content is the same script in the same realm.
#[test]
fn a_javascript_url_inside_a_frame_is_defused_however_it_is_spelled() {
    assert!(is_javascript_url("javascript:alert(1)"));
    assert!(is_javascript_url("JaVaScRiPt:alert(1)"));
    // The parser strips ASCII whitespace and control characters from a URL
    // before resolving it, so these are `javascript:` URLs too and a plain
    // `starts_with` is how one gets missed.
    assert!(is_javascript_url("  javascript:alert(1)"));
    assert!(is_javascript_url("java\tscript:alert(1)"));
    assert!(is_javascript_url("java\nscript:alert(1)"));
    assert!(is_javascript_url("java\u{0}script:alert(1)"));
    assert!(!is_javascript_url("https://example.com/javascript:x"));
    assert!(!is_javascript_url("/not-javascript"));

    assert!(defuse_attribute("onclick", "x()"));
    assert!(defuse_attribute("ONLOAD", "x()"));
    assert!(defuse_attribute("href", " javascript:x()"));
    assert!(!defuse_attribute("href", "https://example.com/"));
    // Not every short name beginning with `on` is a handler, and `on` is
    // an attribute of its own on some elements.
    assert!(!defuse_attribute("on", "x"));
}

fn served(at: &str, status: u16, kind: &str) -> FetchOutcome {
    FetchOutcome {
        seq: Some(1),
        headers: vec![("content-type".to_string(), kind.to_string())],
        final_url: url(at),
        body: b"<p>inner page</p>".to_vec(),
        status: Some(status),
        error: None,
        opaque: false,
    }
}

/// A flattened frame is somebody else's document appearing inline in the
/// agent's reading of this one, so whose words they are is said.
#[test]
fn the_note_names_the_origin_a_frames_content_came_from() {
    let page = url("http://127.0.0.1:8001/");
    let mut frames = Frames::new();
    assert_eq!(frames.next_frame(&vec![7]), Some(7));
    let FrameSource::Address(address) =
        frame_source(None, Some(" http://127.0.0.1:8001/inner ".to_string()))
    else {
        panic!("an address");
    };
    let resolved = frames.resolve(&page, &address).expect("resolves");
    assert!(frames.accept(&resolved, &served("http://127.0.0.1:8001/inner", 200, "text/html")));
    let doc = tree(&[(None, element("iframe", &[]))]);
    frames.grafted(&sift_frame(&doc, 0));

    let notes = frames.notes();
    let note = notes
        .iter()
        .find(|n| n.contains("loaded as content"))
        .expect("the flattening is stated");
    assert!(note.contains("http://127.0.0.1:8001"), "the origin is named: {note}");
    assert!(
        note.contains("another origin's page"),
        "and what that means is said: {note}"
    );
}

/// A page of frames, each with what its attributes say, over a server that
/// answers every request with one document.
struct Framed {
    notes: Vec<String>,
    /// What was put under which frame, and kept there.
    kept: Vec<(usize, String)>,
    broker: LocalBroker,
    /// The requests that went out.
    sent: Vec<WireRequest>,
}

fn send(broker: &mut LocalBroker, sent: &mut Vec<WireRequest>, fetch: Fetch) -> FetchOutcome {
    let (mut sending, mut action) = Sending::begin(broker.policy(), fetch);
    loop {
        let event = match action {
            Action::Number => Event::Numbered(broker.number()),
            Action::Resolve { host, .. } => Event::Resolved(Ok(vec![
                IpAddr::parse(&host).unwrap_or(IpAddr::V4([93, 184, 216, 34])),
            ])),
            Action::Preflight { .. } => panic!("a frame is fetched without asking"),
            Action::Claim => Event::Claimed(Ok(())),
            Action::Append(record) => {
                broker.append(record);
                Event::Appended(Ok(()))
            }
            Action::AppendPair(a, b) => {
                broker.append(a);
                broker.append(b);
                Event::Appended(Ok(()))
            }
            Action::Cookies(_) => Event::Cookies(None),
            Action::Send(wire) => {
                sent.push(wire);
                Event::Answered {
                    answer: Ok(Answer {
                        status: 200,
                        headers: vec![("content-type".to_string(), "text/html".to_string())],
                        location: None,
                    }),
                    ttfb_ms: 1,
                }
            }
            Action::Store { .. } => Event::Stored { cookies: 0, elapsed_ms: 1 },
            Action::Read => {
                Event::Body { read: Ok(b"<p>inner page</p>".to_vec()), elapsed_ms: 2 }
            }
            Action::Settle { record, .. } => {
                broker.append(record);
                Event::Appended(Ok(()))
            }
            Action::Done(outcome) => return outcome,
        };
        (sending, action) = broker.advance(sending, event);
    }
}

fn load_frames(page: &str, policy: Policy, frames: &[(Option<&str>, Option<&str>)]) -> Framed {
    let mut broker = LocalBroker::new(policy, None).expect("a broker");
    let mut sent = Vec::new();
    let mut kept: Vec<(usize, String)> = Vec::new();
    let grafted = tree(&[(None, element("iframe", &[])), (Some(0), element("p", &[]))]);
    let (mut framing, mut task) = Framing::begin(&url(page));
    let notes = loop {
        let report = match task {
            FrameTask::Find => FrameReport::Found((0..frames.len()).collect()),
            FrameTask::Look(id) => FrameReport::Source {
                srcdoc: frames[id].0.map(str::to_string),
                src: frames[id].1.map(str::to_string),
            },
            FrameTask::Fetch(fetch) => FrameReport::Fetched(send(&mut broker, &mut sent, fetch)),
            FrameTask::GraftText { id, html } => {
                kept.push((id, html));
                FrameReport::Grafted { tree: grafted.clone(), frame: Some(0) }
            }
            FrameTask::GraftBody { id, body, content_type } => {
                assert_eq!(content_type.as_deref(), Some("text/html"));
                kept.push((id, String::from_utf8(body).expect("text")));
                FrameReport::Grafted { tree: grafted.clone(), frame: Some(0) }
            }
            FrameTask::Sift(_) => FrameReport::Done,
            FrameTask::Withdraw(_) => panic!("the tree can be sifted"),
            FrameTask::End(notes) => break notes,
        };
        (framing, task) = framing.next(report);
    };
    Framed { notes, kept, broker, sent }
}

#[test]
fn a_frame_fetch_is_receipted_under_its_own_initiator() {
    // The host page is itself on loopback, because the document-origin
    // rule is part of what is under test: a *web* page's frame may not
    // reach the dev server (the sibling test proves that side), while the
    // dev server's own page framing itself is the everyday case.
    let page = load_frames(
        "http://127.0.0.1:8001/",
        Policy::new(),
        &[(None, Some("http://127.0.0.1:8001/inner"))],
    );
    assert_eq!(page.kept, vec![(0, "<p>inner page</p>".to_string())]);
    let frame_record = page
        .broker
        .log()
        .iter()
        .find(|r| r.url.contains("/inner"))
        .expect("the frame fetch is in the log");
    assert_eq!(
        frame_record.initiator,
        Initiator::Frame,
        "an auditor asking \"did this page pull in another document\" gets the answer by name"
    );
    assert_eq!(frame_record.method, "GET");
    assert!(page.notes[0].contains("http://127.0.0.1:8001"), "{:?}", page.notes);
}

#[test]
fn a_cross_origin_frame_is_refused_by_the_allowlist_and_says_so() {
    let page = load_frames(
        "https://host.example/",
        Policy::new(),
        &[(None, Some("https://tracker.example/pixel.html"))],
    );
    assert!(page.kept.is_empty() && page.sent.is_empty(), "refused content leaked");
    assert!(
        page.notes
            .iter()
            .any(|n| n.contains("could not be loaded") && n.contains("tracker.example")),
        "the refusal is a note the agent reads, not an empty frame: {:?}",
        page.notes
    );
    // And it is a *recorded* refusal: the deny is in the log.
    assert!(
        page.broker
            .log()
            .iter()
            .any(|r| r.url.contains("tracker.example") && !r.allowed),
        "the refusal must be receipted"
    );
}

#[test]
fn a_web_pages_frame_may_not_reach_the_dev_server() {
    let page = load_frames(
        "https://site.example/page",
        Policy::new(),
        &[(None, Some("http://127.0.0.1:3000/source"))],
    );
    assert!(
        page.notes
            .iter()
            .any(|n| n.contains("could not be loaded") && n.contains("loopback")),
        "{:?}",
        page.notes
    );
    assert!(page.kept.is_empty() && page.sent.is_empty());
}

#[test]
fn a_frame_that_carries_its_document_is_not_fetched() {
    let page = load_frames(
        "https://host.example/",
        Policy::new().allow("host.example"),
        &[
            (Some("<p>inline</p>"), Some("https://host.example/never")),
            (None, Some("about:blank")),
            (None, None),
            (None, Some("javascript:x()")),
            (None, Some("https://[bad")),
            (None, Some("/served")),
        ],
    );
    assert_eq!(
        page.kept,
        vec![(0, "<p>inline</p>".to_string()), (5, "<p>inner page</p>".to_string())]
    );
    let sent: Vec<&str> = page.sent.iter().map(|w| w.url.href.as_str()).collect();
    assert_eq!(sent, vec!["https://host.example/served"]);
    assert!(page.notes[0].starts_with("2 frame(s) were loaded"), "{:?}", page.notes);
    assert!(page.notes[1].starts_with("2 frame(s) could not be loaded"), "{:?}", page.notes);
}

#[test]
fn a_page_keeps_no_more_frames_than_the_bound() {
    let many = vec![(Some("<p>x</p>"), None); MAX_FRAMES + 4];
    let page = load_frames("https://host.example/", Policy::new(), &many);
    assert_eq!(page.kept.len(), MAX_FRAMES);
    assert!(page.notes.iter().any(|n| n.contains("more than 8 frames")), "{:?}", page.notes);
    let few = vec![(Some("<p>x</p>"), None); MAX_FRAMES];
    let page = load_frames("https://host.example/", Policy::new(), &few);
    assert_eq!(page.kept.len(), MAX_FRAMES);
    assert!(!page.notes.iter().any(|n| n.contains("more than 8 frames")), "{:?}", page.notes);
}

#[test]
fn a_graft_that_cannot_be_sifted_is_taken_out() {
    let (framing, task) = Framing::begin(&url("https://host.example/"));
    assert_eq!(task, FrameTask::Find);
    let (framing, task) = framing.next(FrameReport::Found(vec![4]));
    assert_eq!(task, FrameTask::Look(4));
    let (framing, task) =
        framing.next(FrameReport::Source { srcdoc: Some("<p>x</p>".to_string()), src: None });
    assert_eq!(task, FrameTask::GraftText { id: 4, html: "<p>x</p>".to_string() });
    // A node that stands before its parent.
    let mut tree = tree(&[(None, element("iframe", &[])), (Some(0), element("p", &[]))]);
    tree.nodes[0].parent = Some(1);
    let (framing, task) = framing.next(FrameReport::Grafted { tree, frame: Some(0) });
    assert_eq!(task, FrameTask::Withdraw(4));
    let (framing, task) = framing.next(FrameReport::Done);
    assert_eq!(task, FrameTask::Find);
    let (_, task) = framing.next(FrameReport::Found(vec![4]));
    let FrameTask::End(notes) = task else { panic!("over") };
    assert_eq!(
        notes,
        vec!["1 frame(s) could not be loaded: a frame whose document could not be read back was taken out again".to_string()]
    );
}

#[test]
fn a_javascript_frame_is_refused_by_name() {
    // Script by another road, and the boundary applies to the road too.
    let page = load_frames(
        "https://site.example/page",
        Policy::new(),
        &[(None, Some("javascript:document.title='owned'"))],
    );
    assert!(page.notes.iter().any(|n| n.contains("javascript:")), "{:?}", page.notes);
    assert!(page.kept.is_empty() && page.sent.is_empty());
    let source = frame_source(None, Some("javascript:document.title='owned'".to_string()));
    assert_eq!(source, FrameSource::Script);
}

#[test]
fn a_frame_answer_that_is_no_document_is_refused() {
    let at = url("https://host.example/f");
    let mut frames = Frames::new();
    assert!(!frames.accept(&at, &served("https://host.example/f", 404, "text/html")));
    assert!(!frames.accept(&at, &served("https://host.example/f", 200, "image/png")));
    let notes = frames.notes();
    assert_eq!(
        notes,
        vec!["2 frame(s) could not be loaded: https://host.example/f: the server answered 404; https://host.example/f: `image/png` is not a document".to_string()]
    );
    assert!(frames.resolve(&url("data:text/html,x"), "/y").is_none());
}

#[test]
fn no_more_frames_are_loaded_than_the_bound() {
    let doc = tree(&[(None, element("iframe", &[]))]);
    let sifted = sift_frame(&doc, 0);
    let found: Vec<usize> = (0..20).collect();
    let mut frames = Frames::new();
    let mut taken = Vec::new();
    while let Some(id) = frames.next_frame(&found) {
        taken.push(id);
        frames.grafted(&sifted);
    }
    assert_eq!(taken, (0..MAX_FRAMES).collect::<Vec<_>>());
    assert!(frames.capped);
    assert!(frames.notes().iter().any(|n| n.contains("more than 8 frames")));
    assert_eq!(frame_source(None, Some("about:blank".to_string())), FrameSource::Nothing);
    assert_eq!(frame_source(None, None), FrameSource::Nothing);
}

// -------------------------------------------------------------------- input

#[test]
fn a_session_that_was_dropped_is_said() {
    let notes = built_notes(0, true);
    assert!(
        notes.iter().any(|n| n.contains("dropped on navigation")),
        "the drop is stated, not silent: {notes:?}"
    );
}

#[test]
fn a_session_that_was_kept_is_not_spoken_of() {
    let notes = built_notes(0, false);
    assert!(!notes.iter().any(|n| n.contains("dropped on navigation")));
}

#[test]
fn a_post_form_becomes_a_post_with_the_typed_values_in_its_body() {
    let form = vec![
        FormEntry::Text { name: "user".to_string(), value: "alice".to_string() },
        FormEntry::Text { name: "password".to_string(), value: "hunter2".to_string() },
        FormEntry::File { name: "avatar".to_string() },
    ];
    let submission = capture_submission(
        url("https://site.example/session"),
        url("https://site.example/"),
        "POST".to_string(),
        Some(&form),
        None,
    );
    assert_eq!(submission.method, "POST");
    assert_eq!(submission.url.href, "https://site.example/session");
    let body = String::from_utf8(submission.body.clone()).unwrap();
    assert!(body.contains("user=alice"), "{body}");
    assert!(body.contains("password=hunter2"), "{body}");
    assert!(!body.contains("avatar"), "an upload is absent rather than empty: {body}");
    assert_eq!(
        submission.content_type.as_deref(),
        Some("application/x-www-form-urlencoded")
    );
    let fetch = submission_fetch(&submission);
    assert_eq!(fetch.method, "POST");
    assert_eq!(fetch.body, submission.body);
    assert_eq!(fetch.document, Some(url("https://site.example/")));
}

#[test]
fn a_get_form_puts_its_fields_in_the_query_and_carries_no_body() {
    let query = encode_form_query(&[("q".to_string(), "kelp forests".to_string())]);
    assert_eq!(query, "q=kelp+forests");
    let submission = capture_submission(
        url(&format!("https://site.example/search?{query}")),
        url("https://site.example/"),
        "GET".to_string(),
        None,
        None,
    );
    assert_eq!(submission.method, "GET");
    assert!(submission.body.is_empty(), "a GET carries no body");
    assert!(submission
        .url
        .query
        .unwrap_or_default()
        .contains("q=kelp+forests"));
}

#[test]
fn a_control_outside_any_form_says_so_rather_than_submitting_nothing() {
    let doc = tree(&[
        (None, element("body", &[])),
        (Some(0), element("input", &[("type", "text")])),
    ]);
    assert_eq!(enclosing_form(&doc, 1), None);
    let error = no_submission(false);
    assert!(error.contains("not inside a form"), "{error}");
}

#[test]
fn a_form_value_cannot_forge_another_field() {
    assert_eq!(
        encode_form_query(&[
            ("a&b".to_string(), "1=2&c".to_string()),
            ("d".to_string(), "\u{e9} +".to_string()),
        ]),
        "a%26b=1%3D2%26c&d=%C3%A9+%2B"
    );
    let (body, kind) = encode_form_body(
        "multipart/form-data",
        &[("a".to_string(), "x".to_string())],
        "edge",
    );
    assert!(kind.contains("boundary=edge"), "{kind}");
    let text = String::from_utf8(body).unwrap();
    assert!(text.starts_with("--edge\r\n"), "{text}");
    assert!(text.ends_with("--edge--\r\n"), "{text}");
    let (body, kind) = encode_form_body("", &[("a".to_string(), "x".to_string())], "edge");
    assert_eq!(body, b"a=x");
    assert_eq!(kind, "application/x-www-form-urlencoded");
}

#[test]
fn the_form_and_the_link_above_a_node_are_found() {
    let doc = tree(&[
        (None, element("body", &[])),
        (Some(0), element("form", &[])),
        (Some(1), element("a", &[("href", "/next")])),
        (Some(2), element("button", &[])),
        (Some(1), element("input", &[("type", "submit")])),
        (Some(1), element("input", &[("type", "text")])),
    ]);
    assert_eq!(enclosing_form(&doc, 3), Some(101));
    assert_eq!(link_above(&doc, 3).as_deref(), Some("/next"));
    assert_eq!(
        link_at(&doc, 3, &url("https://site.example/dir/")).map(|u| u.href),
        Some("https://site.example/next".to_string())
    );
    assert_eq!(link_above(&doc, 1), None);
    assert!(is_submit_control(&doc, 3));
    assert!(is_submit_control(&doc, 4));
    assert!(!is_submit_control(&doc, 5));
}

#[test]
fn checking_a_radio_turns_the_others_of_its_group_off() {
    let mut nodes = vec![(None, element("form", &[]))];
    for (name, on) in [("g", true), ("g", false), ("h", true)] {
        let mut e = element("input", &[("type", "radio"), ("name", name)]);
        e.checked = Some(on);
        nodes.push((Some(0), e));
    }
    let mut check = element("input", &[("type", "checkbox"), ("checked", "")]);
    check.checked = Some(true);
    nodes.push((Some(0), check));
    nodes.push((Some(0), element("div", &[])));
    let doc = tree(&nodes);
    assert_eq!(set_checked(&doc, 2, true), Checking::Turn { off: vec![101] });
    assert_eq!(set_checked(&doc, 4, true), Checking::Already);
    assert_eq!(set_checked(&doc, 4, false), Checking::Turn { off: vec![] });
    assert_eq!(set_checked(&doc, 5, true), Checking::NotCheckable);
}

#[test]
fn a_checkbox_begins_with_the_state_it_declares() {
    let doc = tree(&[
        (None, element("form", &[])),
        (Some(0), element("input", &[("type", "checkbox"), ("checked", "")])),
        (Some(0), element("input", &[("type", "radio")])),
        (Some(0), element("input", &[("type", "text")])),
    ]);
    assert_eq!(seed_checkbox_state(&doc), vec![(101, true), (102, false)]);
}

#[test]
fn an_option_is_chosen_by_value_or_by_label() {
    let mut doc = tree(&[
        (None, element("select", &[])),
        (Some(0), element("option", &[("value", "x1")])),
        (Some(0), element("option", &[])),
        (None, element("p", &[])),
    ]);
    doc.nodes[1].text = "Express".to_string();
    doc.nodes[2].text = "Slow".to_string();
    let by_value = select_option(&doc, 0, "x1");
    assert_eq!(by_value.chosen, Some(101));
    assert_eq!(by_value.others, vec![102]);
    assert!(matches!(by_value.outcome, SelectOutcome::Chosen(_)));
    assert_eq!(select_option(&doc, 0, "Slow").chosen, Some(102));
    assert_eq!(select_option(&doc, 0, "Never").outcome, SelectOutcome::NoSuchOption);
    assert_eq!(select_option(&doc, 3, "x1").outcome, SelectOutcome::NotASelect);
}

// ------------------------------------------------------------------ network

#[test]
fn a_meta_refresh_is_parsed_the_way_hand_written_html_writes_it() {
    let base = Url::parse("https://site.example/dir/page.html").unwrap();

    // Twenty-five years of hand-written variants, all of which appear in
    // the wild and all of which mean the same thing.
    for markup in [
        r#"<meta http-equiv="refresh" content="0; url=next.html">"#,
        r#"<meta http-equiv="Refresh" content="0;URL=next.html">"#,
        r#"<meta http-equiv=refresh content='0; url=next.html'>"#,
        r#"<meta content="0; url=next.html" http-equiv="refresh">"#,
        r#"<META HTTP-EQUIV="REFRESH" CONTENT="0; URL='next.html'">"#,
    ] {
        let found = meta_refresh(markup, &base);
        assert_eq!(
            found.map(|(delay, url)| (delay, url.href)),
            Some((0, "https://site.example/dir/next.html".to_string())),
            "failed on {markup}"
        );
    }

    // The delay is read, not assumed.
    assert_eq!(
        meta_refresh(
            r#"<meta http-equiv="refresh" content="600; url=/live">"#,
            &base
        )
        .map(|(d, _)| d),
        Some(600)
    );

    // A refresh with no URL reloads this page; that is not a redirect.
    assert!(meta_refresh(r#"<meta http-equiv="refresh" content="30">"#, &base).is_none());
    // And an unrelated meta is not one.
    assert!(meta_refresh(r#"<meta name="description" content="0; url=x">"#, &base).is_none());
    // `http-equiv="refresh-policy"` must not match on a substring.
    assert!(meta_refresh("<p>content=\"0; url=x\"</p>", &base).is_none());
}

#[test]
fn a_meta_that_only_mentions_a_refresh_is_not_one() {
    let base = Url::parse("https://site.example/dir/page.html").unwrap();
    for markup in [
        r#"<meta http-equiv="refresh-policy" content="0; url=x">"#,
        r#"<meta http-equiv="content-type" content="0; url=refresh">"#,
        r#"<meta data-http-equiv="refresh" content="0; url=x">"#,
    ] {
        assert!(meta_refresh(markup, &base).is_none(), "{markup}");
    }
    assert!(meta_refresh(r#"<meta http-equiv=" Refresh " content="1; url=x">"#, &base).is_some());
}

#[test]
fn a_challenge_page_is_recognised_and_an_ordinary_short_page_is_not() {
    assert_eq!(
        challenge_marker("<html><body>Enable JavaScript and cookies to continue</body></html>"),
        Some("enable javascript and cookies to continue")
    );
    assert_eq!(
        challenge_marker("<title>Attention Required! | Cloudflare</title>"),
        Some("attention required! | cloudflare")
    );
    // A short page is not a challenge. Saying otherwise would tell an agent
    // it was blocked by a site that simply had little to say.
    assert_eq!(challenge_marker("<html><body><p>Not found.</p></body></html>"), None);
    assert_eq!(
        challenge_marker("<p>This article explains how to enable JavaScript.</p>"),
        None
    );
}

#[test]
fn an_attribute_is_read_whichever_way_it_was_quoted() {
    assert_eq!(attribute_value(r#"<meta content="a b">"#, "content"), Some("a b".into()));
    assert_eq!(attribute_value(r#"<meta content='a b'>"#, "content"), Some("a b".into()));
    assert_eq!(attribute_value(r#"<meta content=ab>"#, "content"), Some("ab".into()));
    // Not the tail of another attribute: `data-content` is not `content`.
    assert_eq!(attribute_value(r#"<meta data-content="x">"#, "content"), None);
    assert_eq!(attribute_value(r#"<meta charset="utf-8">"#, "content"), None);
}

#[test]
fn a_delay_is_read_the_way_a_number_is() {
    for (text, seconds) in [
        ("0", 0u64),
        ("3.9", 3),
        ("1e2", 100),
        ("-4", 0),
        (".5", 0),
        ("nonsense", 0),
        ("1e400", u64::MAX),
    ] {
        assert_eq!(seconds_of(text), seconds, "{text}");
    }
}

#[test]
fn an_unloadable_image_loses_its_source_and_keeps_its_alt() {
    assert_eq!(
        strip_image_sources("<p>a</p><img src=\"x.png\" alt=\"y\"><b>c</b>"),
        "<p>a</p><img alt=\"y\"> ><b>c</b>"
    );
    assert_eq!(
        declared_content_type(&served("https://a.example/", 200, "text/html")).as_deref(),
        Some("text/html")
    );
}

// ------------------------------------------------------------------ opening

#[test]
fn a_refresh_is_followed_to_somewhere_new_and_no_further() {
    let start = url("https://site.example/a");
    let next = url("https://site.example/b");
    let mut opening = Opening::begin(&start);
    assert_eq!(
        opening.arrive(&start, &Some((0, next.clone()))),
        Arrival::Onward(next.clone())
    );
    // Back to where it began: that is a loop, and it ends here.
    assert!(!matches!(
        opening.arrive(&next, &Some((0, start.clone()))),
        Arrival::Onward(_)
    ));
    // A long delay is a page that reloads, not a redirect.
    let mut slow = Opening::begin(&start);
    assert_eq!(slow.arrive(&start, &Some((600, next.clone()))), Arrival::Here);
    let told = could_not_open(&start, "denied by policy: no");
    assert!(told.contains("https://site.example/a"), "{told}");
    assert!(told.contains("denied by policy: no"), "{told}");
}

#[test]
fn what_is_not_the_page_is_named() {
    let at = url("https://site.example/a");
    let mut opening = Opening::begin(&at);
    opening.arrive(&at, &None);
    let notes = opening.notes(503, &vec![], Some("just a moment..."), &None);
    assert!(notes.iter().any(|n| n.contains("503")), "{notes:?}");
    assert!(notes.iter().any(|n| n.contains("just a moment...")), "{notes:?}");
    assert!(opening.notes(200, &vec![], None, &None).is_empty());
}

#[test]
fn a_reading_says_what_it_left_out() {
    let reading = Reading {
        notes: vec!["first".to_string()],
        empty: false,
        scripts: 0,
        realm: false,
        ran_scripts: false,
        layout_failure: Some("boom".to_string()),
        spent: Some(Spending {
            requests: 9,
            max_requests: 8,
            wire_bytes: 0,
            max_wire_bytes: 1,
            decoded_bytes: 0,
            max_decoded_bytes: 1,
            network_ms: 0,
            max_network_ms: 1,
        }),
        settled: Some(Settled { cut_off: true, ..Settled::trivial() }),
        settled_text: "still running".to_string(),
        unsupported: vec![("WebGL".to_string(), 3)],
    };
    let notes = snapshot_notes(&reading);
    assert_eq!(notes[0], "first");
    assert!(notes.iter().any(|n| n.contains("boom")), "{notes:?}");
    assert!(notes.iter().any(|n| n.contains("more than 8 requests")), "{notes:?}");
    assert!(notes.iter().any(|n| n == "still running"), "{notes:?}");
    // Said where the page was cut off or goes on by itself, and nowhere else.
    for (settled, said) in [
        (None, false),
        (Some(Settled::trivial()), false),
        (Some(Settled { pending_timers: 2, timers_run: 9, ..Settled::trivial() }), false),
        (Some(Settled { periodic_timers: 1, ..Settled::trivial() }), true),
    ] {
        let notes = snapshot_notes(&Reading { settled, ..reading.clone() });
        assert_eq!(notes.iter().any(|n| n == "still running"), said, "{settled:?}");
    }
    assert!(notes.iter().any(|n| n.contains("WebGL x3")), "{notes:?}");
    assert_eq!(layout_failure(None, false), None);
}

#[test]
fn a_page_may_submit_itself_only_so_often() {
    assert_eq!(self_submission(0, false), SelfSubmission::Done);
    assert_eq!(self_submission(2, true), SelfSubmission::Follow);
    assert!(matches!(self_submission(3, true), SelfSubmission::Stop(_)));
}

#[test]
fn the_command_lines_seconds_become_the_pages_budgets() {
    let mut view = ViewOptions {
        width: 640,
        height: 480,
        max_snapshot_lines: 10,
        script: true,
        script_seconds: 0,
        webidl_conformance: false,
        navigation_seconds: 45,
    };
    assert_eq!(page_options(view).navigation_budget_ms, 45_000);
    assert_eq!(page_options(view).script_budget_ms, None);
    view.script_seconds = 7;
    assert_eq!(page_options(view).script_budget_ms, Some(7_000));
    view.navigation_seconds = u64::MAX;
    assert_eq!(page_options(view).navigation_budget_ms, u64::MAX);
}

// ------------------------------------------------------------------ scripts

fn script(kind: Option<&str>, src: Option<&str>, text: &str) -> ScriptElement {
    ScriptElement {
        node: 5,
        kind: kind.map(str::to_string),
        src: src.map(str::to_string),
        text: text.to_string(),
    }
}

#[test]
fn a_data_block_is_not_code_and_a_module_is_not_a_classic_script() {
    let plan = plan_scripts(&vec![
        script(None, None, "a()"),
        script(Some("application/ld+json"), None, "{}"),
        script(Some("module"), Some("/m.js"), ""),
        script(Some("importmap"), None, "{\"imports\":{}}"),
        script(Some("importmap"), None, "{}"),
        script(Some("text/javascript"), Some("/c.js"), ""),
    ]);
    assert_eq!(plan.map.as_deref(), Some("{\"imports\":{}}"));
    assert_eq!(plan.extra_maps, 1);
    assert!(plan.extra_note().is_some());
    assert_eq!(plan.classic.len(), 2);
    assert_eq!(plan.classic[0].source, Source::Inline("a()".to_string()));
    assert_eq!(plan.classic[1].source, Source::External("/c.js".to_string()));
    assert_eq!(plan.modules.len(), 1);
    assert!(plan.has_code());
    assert!(needs_realm(false, true));
    assert!(!needs_realm(false, false));
    assert!(!where_from(&plan.classic[0].source, 0).is_empty());
}

#[test]
fn the_script_phase_ends_when_its_budget_does() {
    assert_eq!(phase_budget(None, u64::MAX), 20_000);
    assert_eq!(phase_budget(Some(5_000), 3_000), 3_000);
    assert!(may_start(0, 10));
    assert!(!may_start(10, 10));
    assert_eq!(settle_budget(4_000, 10_000), 6_000);
    // What is left to settle is never less than a second.
    assert_eq!(settle_budget(4, 10), 1_000);
    assert!(skipped_note(0).is_none());
    assert!(skipped_note(2).unwrap().contains('2'));
}

#[test]
fn a_script_is_fetched_for_its_document() {
    let document = url("https://site.example/page");
    let at = url("https://cdn.example/lib.js");
    let classic = classic_fetch(&at, &document);
    assert_eq!(classic.initiator, Initiator::Subresource);
    assert_eq!(classic.document, Some(document.clone()));
    let module = module_fetch(&at, &document);
    assert!(module.cors.is_some(), "a module is always asked for across origins");
    assert!(refuse_script(&at, &served("https://cdn.example/lib.js", 200, "text/javascript")).is_none());
    assert!(refuse_script(&at, &served("https://cdn.example/lib.js", 404, "text/html")).is_some());
}

#[test]
fn a_key_is_heard_around_its_edit() {
    let plan = key_plan(KeyEdit::Edit { types: true, moves: false }, true);
    assert_eq!(plan[0], KeyAction::KeyDown);
    assert!(plan.contains(&KeyAction::Apply));
    assert_eq!(*plan.last().unwrap(), KeyAction::KeyUp);
    let nowhere = key_plan(KeyEdit::Edit { types: true, moves: false }, false);
    assert!(!nowhere.contains(&KeyAction::Apply));
    assert!(key_changed(KeyEdit::FocusNext, false, true, false));
    assert!(!key_changed(KeyEdit::Ignore, true, false, false));
}

#[test]
fn a_click_that_a_handler_stopped_submits_nothing() {
    assert_eq!(submit_after_click(Some(true), true, Some(9)), Some(9));
    assert_eq!(submit_after_click(Some(false), true, Some(9)), None);
    assert_eq!(submit_after_click(None, true, Some(9)), Some(9));
    assert_eq!(submit_after_click(Some(true), false, Some(9)), None);
    assert!(still_submits(Some(true), true, None));
    assert!(!still_submits(Some(true), true, Some(false)));
    assert!(!still_submits(Some(false), false, None));
}

#[test]
fn a_wait_is_met_by_what_a_reader_sees() {
    let selector = WaitTarget::Selector(".done".to_string());
    assert!(wait_is_met(&selector, 1, &vec![]));
    assert!(!wait_is_met(&selector, 0, &vec![".done".to_string()]));
    let text = WaitTarget::Text("ready".to_string());
    assert!(wait_is_met(&text, 0, &vec!["all ready now".to_string()]));
    assert!(!wait_is_met(&text, 3, &vec!["not yet".to_string()]));
    let met = wait_without_script(true);
    assert!(met.met && !met.changed);
    assert_eq!((met.settled, met.end), (Settled::trivial(), WaitEnd::Met));
    let unmet = wait_without_script(false);
    assert!(!unmet.met && !unmet.changed);
    assert_eq!((unmet.settled, unmet.end), (Settled::trivial(), WaitEnd::Quiescent));
}

#[test]
fn a_query_is_read_back_as_it_was_filled_in() {
    let entries: Vec<(String, String)> = [
        ("q", "a b&c=d"),
        ("", ""),
        ("plus", "1+1=2%"),
        ("caf\u{e9}", "\u{1f600}\r\n"),
    ]
    .iter()
    .map(|(n, v)| (n.to_string(), v.to_string()))
    .collect();
    let query = encode_form_query(&entries);
    let read: Vec<(String, String)> = url::form_urlencoded::parse(query.as_bytes())
        .map(|(n, v)| (n.into_owned(), v.into_owned()))
        .collect();
    assert_eq!(read, entries);
    assert_eq!(encode_form_query(&[]), "");
}

#[test]
fn a_delay_is_read_in_double_precision() {
    for (text, seconds) in [
        ("0.99999999999999999999", 1),
        ("0.9999999999999999", 0),
        ("1.9999999999999999", 2),
        ("1.999999999999999", 1),
        ("0.00000000000000000000001", 0),
        ("4503599627370496.5", 4_503_599_627_370_496),
        ("4503599627370497.5", 4_503_599_627_370_498),
        ("9007199254740993", 9_007_199_254_740_992),
        ("9007199254740993.0000000001", 9_007_199_254_740_994),
        ("9007199254740995", 9_007_199_254_740_996),
        ("18446744073709549568", 18_446_744_073_709_549_568),
        ("18446744073709550591", 18_446_744_073_709_549_568),
        ("18446744073709550592", u64::MAX),
        ("18446744073709551615", u64::MAX),
        ("99999999999999999999", u64::MAX),
        ("1e3", 1000),
        ("2.5e-1", 0),
        ("99999999999999999999e-20", 1),
    ] {
        assert_eq!(seconds_of(text), seconds, "{text}");
        let double: f64 = text.parse().expect("a number");
        assert_eq!(seconds, double.max(0.0) as u64, "{text}");
    }
}
