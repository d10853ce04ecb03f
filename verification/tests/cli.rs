use h5i_browser::command::{
    base_from, build_policy, capture_dir, check_targets, doctor, exit_code, half_for, jar_notes,
    limits_of, local_base, one_page, own_records, parse_target, proxy_of, responses, Batch, Capabilities, ConsoleLine,
    Half, NetOptions, PageReport, Target,
};
use h5i_browser::identity::{
    check_coherent, check_report, check_text, identity_row, IdentityCheck, Incoherence, Unmet,
};
use h5i_browser::json::Json;
use h5i_browser::place::{
    check_payload, check_private_dir, control_file, control_file_beside, default_control_file,
    may_read_port, payload_spec, ControlFile, Directory, MAX_PAYLOAD_BYTES,
};
use h5i_browser::policy::Policy;
use h5i_browser::receipt::{Initiator, Phase, RequestRecord};
use h5i_browser::session::{
    checked_state, is_ok, recording_of, refusal_of, replay_note, request_of, show,
    two_positionals, Handle, Replaying, Resend, SessionVerb, Shown,
};
use h5i_browser::url::Url;

/// `--role` must not conflict with the positional the value arrives in.
#[test]
fn a_locator_takes_the_value_in_the_first_positional() {
    let value = Some("true".to_string());
    let (reference, state) =
        two_positionals("set-checked", "a state", true, &value, &None).expect("the role form");
    assert_eq!(reference, None, "a locator is the handle; there is no ref");
    assert_eq!(state, "true");
}

#[test]
fn a_ref_takes_both_positionals() {
    let (reference, state) = two_positionals(
        "set-checked",
        "a state",
        false,
        &Some("@e1".to_string()),
        &Some("false".to_string()),
    )
    .expect("the ref form");
    assert_eq!(reference.as_deref(), Some("@e1"));
    assert_eq!(state, "false");
}

#[test]
fn half_of_either_form_says_which_forms_there_are() {
    let only_a_ref =
        two_positionals("select", "the option", false, &Some("@e1".into()), &None).unwrap_err();
    assert!(only_a_ref.contains("--role"), "{only_a_ref}");
    assert!(only_a_ref.contains("--selector"), "{only_a_ref}");

    // A locator plus both positionals is a caller using two handles.
    let both = two_positionals(
        "select",
        "the option",
        true,
        &Some("@e1".into()),
        &Some("x".into()),
    )
    .unwrap_err();
    assert!(both.contains("the locator is the handle"), "{both}");
}

/// The default session path is per-user, or absent.
#[test]
fn the_default_session_directory_is_never_shared() {
    // Nothing to go on: no path at all rather than a guess.
    assert!(default_control_file(None, None, None).is_none());

    // A runtime dir is preferred, because it is per-user and 0700.
    let path = default_control_file(Some("/run/user/1000"), None, Some("/home/a")).expect("a path");
    assert!(path.starts_with("/run/user/1000"), "{path}");

    // Falling back to HOME, still per-user.
    let path = default_control_file(Some(""), None, Some("/home/a")).expect("a path");
    assert!(path.starts_with("/home/a"), "{path}");
    assert_eq!(path, "/home/a/.cache/h5i-browser/session.control");
}

#[test]
fn a_session_directory_somebody_else_can_write_is_refused() {
    let dir = |mode: u32| Directory { is_dir: true, owner: 1000, mode };
    assert!(check_private_dir("/d", dir(0o40700), 1000).is_ok());

    for mode in [0o777, 0o770, 0o707, 0o722] {
        let why = check_private_dir("/d", dir(mode), 1000)
            .expect_err(&format!("mode {mode:o} should be refused"));
        assert!(why.contains("writable"), "{why}");
        assert!(why.contains(&format!("(mode {mode:o})")), "{why}");
    }

    // And a path that is not a directory at all.
    let file = Directory { is_dir: false, owner: 1000, mode: 0o600 };
    assert!(check_private_dir("/d/f", file, 1000).is_err());
    // Nor somebody else's.
    assert_eq!(
        check_private_dir("/d", dir(0o700), 7).unwrap_err(),
        "/d is owned by uid 1000 and this process is uid 7"
    );
}

#[test]
fn a_control_file_the_caller_named_is_not_second_guessed() {
    let tmp = Directory { is_dir: true, owner: 0, mode: 0o41777 };
    let shared = check_private_dir("/tmp", tmp, 0);
    assert!(shared.is_err());
    let named = control_file(Some("/tmp/a.control"), None, None, Some("/run/x.control")).unwrap();
    assert_eq!(
        named,
        ControlFile { path: "/tmp/a.control".to_string(), defaulted: false }
    );
    assert!(may_read_port(&named, true, &shared).is_ok());

    // The rule applies to a default.
    let fallback = control_file(None, None, None, Some("/tmp/session.control")).unwrap();
    assert!(fallback.defaulted);
    let why = may_read_port(&fallback, true, &shared).unwrap_err();
    assert!(why.contains("refusing to read a session port from /tmp/session.control"), "{why}");
    // A missing file is not a suspicious one.
    let why = may_read_port(&fallback, false, &shared).unwrap_err();
    assert!(why.contains("no session is listening"), "{why}");
}

#[test]
fn serve_and_the_verbs_agree_on_where_a_session_lives() {
    let path = default_control_file(Some("/run/user/4242"), None, None).expect("a path");
    assert_eq!(path, "/run/user/4242/h5i-browser/session.control");
    let serving = control_file(None, None, None, Some(&path));
    let finding = control_file(None, None, None, Some(&path));
    assert_eq!(serving, finding);
}

#[test]
fn http_targets_are_remote_and_paths_are_local() {
    assert!(matches!(
        parse_target("https://example.com/").unwrap(),
        Target::Remote(_)
    ));
    assert!(matches!(
        parse_target("./page.html").unwrap(),
        Target::Local(_)
    ));
    assert!(matches!(
        parse_target("/tmp/page.html").unwrap(),
        Target::Local(_)
    ));
    assert_eq!(
        parse_target("file:///tmp/a%20page.html").unwrap(),
        Target::Local(b"/tmp/a page.html".to_vec())
    );
}

#[test]
fn an_unopenable_scheme_says_so_rather_than_being_read_as_a_filename() {
    // `data:...` as a navigation target would otherwise become a file
    // named "data:..." and fail with a confusing not-found.
    let error = parse_target("ftp://example.com/x").unwrap_err();
    assert!(error.contains("ftp"));
}

#[test]
fn the_control_file_sits_beside_the_stream_file() {
    // A session must be drivable by whoever knows the stream file alone.
    assert_eq!(
        control_file_beside("/tmp/agent-browser/h5i-light.stream"),
        "/tmp/agent-browser/h5i-light.control"
    );
    for (path, beside) in [
        ("stream", "stream.control"),
        (".stream", ".stream.control"),
        ("/a/b.c.d", "/a/b.c.control"),
        ("/a/b.d/", "/a/b.control"),
        ("/a/..", "/a/.."),
        ("/", "/"),
        ("", ""),
    ] {
        assert_eq!(control_file_beside(path), beside, "{path}");
        assert_eq!(
            std::path::Path::new(path).with_extension("control"),
            std::path::PathBuf::from(beside)
        );
    }
}

#[test]
fn capabilities_report_the_configuration_asked_about() {
    // What callers route on is whether *this* invocation runs script, not what
    // the binary could do if asked differently.
    assert!(!Capabilities::current().javascript, "off unless asked");
    assert!(!Capabilities::with_script(false).javascript);
    assert!(Capabilities::with_script(true).javascript);

    // The rest is a property of the engine either way, and stays honest.
    let with = Capabilities::with_script(true);
    assert!(with.fail_closed_receipts);
    assert!(with.snapshot && with.screenshot && with.live_view);
    assert!(!with.video && !with.webgl, "still absent, and still said so");
}

// ------------------------------------------------------------------ session

fn text(t: &str) -> Json {
    Json::Text(t.to_string())
}

fn object(entries: Vec<(&str, Json)>) -> Json {
    Json::Object(
        entries
            .into_iter()
            .map(|(n, v)| (n.to_string(), v))
            .collect(),
    )
}

fn number(n: u64) -> Json {
    Json::Number { whole: Some(n), text: n.to_string() }
}

fn by_ref(reference: &str) -> Handle {
    Handle {
        reference: Some(reference.to_string()),
        selector: None,
        role: None,
        name: None,
    }
}

fn entry_of(j: &Json, name: &str) -> String {
    let Json::Object(entries) = j else {
        panic!("an object");
    };
    let found = entries.iter().find(|(n, _)| n == name).expect("the entry");
    format!("{:?}", found.1)
}

#[test]
fn a_verb_asks_for_what_was_typed() {
    assert_eq!(
        request_of(&SessionVerb::Status).unwrap(),
        object(vec![("verb", text("status"))])
    );
    assert_eq!(
        request_of(&SessionVerb::Login { off: false }).unwrap(),
        object(vec![("verb", text("login")), ("on", Json::Bool(true))])
    );
    assert_eq!(
        request_of(&SessionVerb::Click { handle: by_ref("@e3") }).unwrap(),
        object(vec![
            ("verb", text("click")),
            ("ref", text("@e3")),
            ("selector", Json::Null),
            ("role", Json::Null),
            ("name", Json::Null),
        ])
    );
    // With a locator the one positional is the text.
    let handle = Handle {
        reference: Some("alice".to_string()),
        selector: Some("#user".to_string()),
        role: None,
        name: None,
    };
    assert_eq!(
        request_of(&SessionVerb::Type { handle, text: None }).unwrap(),
        object(vec![
            ("verb", text("type")),
            ("ref", Json::Null),
            ("selector", text("#user")),
            ("role", Json::Null),
            ("name", Json::Null),
            ("text", text("alice")),
        ])
    );
}

#[test]
fn a_state_is_read_in_words_and_a_typo_is_said() {
    for word in ["true", " Yes", "ON", "1"] {
        assert_eq!(checked_state(word), Ok(true), "{word}");
    }
    for word in ["false", "no", "Off ", "0"] {
        assert_eq!(checked_state(word), Ok(false), "{word}");
    }
    let typo = SessionVerb::SetChecked {
        handle: by_ref("@e1"),
        checked: Some("Ture".to_string()),
    };
    let why = request_of(&typo).unwrap_err();
    assert!(why.starts_with("`ture` is not a state."), "{why}");
}

#[test]
fn a_payload_travels_as_base64() {
    let resend = |payload: &[u8]| {
        request_of(&SessionVerb::Resend(Resend {
            from: Some(3),
            set: vec!["query.id=2".to_string()],
            set_file: vec![("body".to_string(), payload.to_vec())],
            unset: vec![],
            create: false,
            repeat: 1,
            together: false,
            no_follow: true,
            reset_budget: false,
            request: None,
            raw_target: None,
            raw_request: None,
        }))
        .unwrap()
    };
    for (payload, encoded) in [
        (&b""[..], ""),
        (&b"f"[..], "Zg=="),
        (&b"fo"[..], "Zm8="),
        (&b"foo"[..], "Zm9v"),
        (&b"foobar"[..], "Zm9vYmFy"),
        (&[0xfb, 0xff, 0xbf, 0x00][..], "+/+/AA=="),
    ] {
        let asked = resend(payload);
        assert_eq!(
            entry_of(&asked, "set_file"),
            format!("{:?}", Json::List(vec![Json::List(vec![text("body"), text(encoded)])]))
        );
        assert_eq!(entry_of(&asked, "repeat"), format!("{:?}", number(1)));
    }
}

#[test]
fn a_reply_is_shown_for_what_it_is() {
    let shown = |entries: Vec<(&str, Json)>| show(&object(entries));
    assert_eq!(
        shown(vec![("text", text("outline")), ("reason", text("no base"))]),
        Shown::Text { text: "outline".to_string(), note: Some("note: no base".to_string()) }
    );
    assert_eq!(
        shown(vec![("message", text("done"))]),
        Shown::Line("done".to_string())
    );
    assert_eq!(shown(vec![("moved", Json::Bool(false))]), Shown::Moved(false));
    assert_eq!(
        shown(vec![("url", text("https://a.example/"))]),
        Shown::Line("url: https://a.example/".to_string())
    );
    // The typed text is not echoed.
    assert_eq!(
        shown(vec![("ref", text("@e1")), ("typed", text("hunter2"))]),
        Shown::Line("typed into @e1".to_string())
    );
    assert_eq!(shown(vec![("ok", Json::Bool(true))]), Shown::Nothing);

    assert!(is_ok(&object(vec![("ok", Json::Bool(true))])));
    assert!(!is_ok(&object(vec![("ok", text("true"))])));
    assert_eq!(refusal_of(&object(vec![("error", text("no"))])), "no");
    assert_eq!(refusal_of(&Json::Null), "the session refused, without saying why");
}

#[test]
fn a_recording_says_what_it_is_missing() {
    let kept = recording_of(
        &object(vec![
            ("steps", Json::List(vec![Json::Null, Json::Null])),
            ("dropped", number(1)),
        ]),
        "/tmp/s.json",
    );
    assert_eq!(kept.wrote, "wrote 2 step(s) to /tmp/s.json");
    assert!(kept.missing.unwrap().contains("1 action(s) are not in it"));
    assert_eq!(entry_of(&kept.document, "start_url"), "Null");
    let none = recording_of(&object(vec![]), "p");
    assert_eq!(none.wrote, "wrote 0 step(s) to p");
    assert_eq!(none.missing, None);
    assert_eq!(entry_of(&none.document, "steps"), format!("{:?}", Json::List(vec![])));
}

#[test]
fn a_replay_stops_at_the_first_step_that_fails() {
    let good = object(vec![("ok", Json::Bool(true))]);
    let bad = object(vec![("ok", Json::Bool(false)), ("error", text("gone"))]);

    let mut replay = Replaying::new(3, false);
    assert_eq!(replay.take("click @e1", &good).line.as_deref(), Some("  1. click @e1"));
    let stepped = replay.take("press Enter", &bad);
    assert_eq!(
        stepped.trouble.as_deref(),
        Some("  2. press Enter \u{2014} FAILED: gone")
    );
    assert!(stepped.stop.unwrap().starts_with("step 2 of 3 failed: gone."));

    let mut replay = Replaying::new(2, true);
    assert!(replay.take("a", &bad).stop.is_none());
    replay.take("b", &good);
    assert_eq!(replay.end().unwrap_err(), "1 of 2 step(s) replayed; 1 failed");

    let mut whole = Replaying::new(1, false);
    whole.take("a", &good);
    assert_eq!(whole.end().unwrap(), "replayed 1 step(s)");
    assert!(replay_note(0).is_none());
    assert!(replay_note(2).unwrap().contains("missing 2 action(s)"));
}

// ------------------------------------------------------------------- grants

fn net() -> NetOptions {
    NetOptions {
        allow: vec!["docs.rs".to_string()],
        no_loopback: true,
        allow_any_remote: false,
        permissive_cors: true,
        max_response_bytes: 1024,
        max_redirects: 2,
        max_requests: 10,
        max_wire_bytes: 100,
        max_network_seconds: 60,
    }
}

#[test]
fn flags_and_surroundings_are_granted_together() {
    let policy = build_policy(&net(), " example.com ,, *.crates.io");
    let at = |s: &str| Url::parse(s).unwrap();
    assert!(policy.check(&at("https://docs.rs/")).is_allowed());
    assert!(policy.check(&at("https://example.com/")).is_allowed());
    assert!(policy.check(&at("https://static.crates.io/")).is_allowed());
    assert!(!policy.check(&at("https://elsewhere.example/")).is_allowed());
    assert!(!policy.check(&at("http://localhost/")).is_allowed());
    assert_eq!(policy.max_redirects(), 2);
    assert_eq!(policy.max_response_bytes(), 1024);
    assert!(policy.allows_cross_site_credentials());

    let limits = limits_of(&net());
    assert_eq!(limits.max_decoded_bytes, 400);
    let mut wide = net();
    wide.max_wire_bytes = u64::MAX;
    assert_eq!(limits_of(&wide).max_decoded_bytes, u64::MAX);
}

#[test]
fn a_blank_variable_names_nothing() {
    assert_eq!(proxy_of(None, Some("  ")), None);
    assert_eq!(proxy_of(Some(" "), Some("http://p")), None);
    assert_eq!(proxy_of(None, Some("http://p")).as_deref(), Some("http://p"));
    assert_eq!(capture_dir(Some(" "), None).as_deref(), Some(" "));
    assert_eq!(capture_dir(None, Some(" ")), None);
}

#[test]
fn the_doctor_says_how_wide_the_grant_is() {
    let lines = doctor("1.0", "3 faces", false, None, true, &Policy::new());
    assert_eq!(lines[0], "engine     : h5i-browser 1.0");
    assert!(lines.contains(&"loopback   : allowed (the dev server)".to_string()));
    assert!(lines.iter().any(|l| l.contains("nothing remote is reachable")));
    assert!(!lines.iter().any(|l| l.starts_with("cors")));

    let wide = build_policy(&net(), "").set_any_remote(true);
    let lines = doctor("1.0", "none", true, Some("http://p"), false, &wide);
    assert!(lines.iter().any(|l| l.contains("pass --font-file")));
    assert!(lines.contains(&"egress     : via http://p".to_string()));
    assert!(lines.iter().any(|l| l.contains("ANY REMOTE ORIGIN")));
    assert!(lines
        .iter()
        .any(|l| l == "             (also granted by name: https://docs.rs)"));
    assert!(lines.iter().any(|l| l.contains("PERMISSIVE")));
}

#[test]
fn the_halves_and_the_exit_code_follow_the_process() {
    assert_eq!(half_for(true, true, true), Half::Renderer);
    assert_eq!(half_for(false, true, true), Half::Broker);
    assert_eq!(half_for(false, true, false), Half::Whole);
    assert_eq!(half_for(false, false, true), Half::Whole);
    assert_eq!(exit_code(Some(3), None), 3);
    assert_eq!(exit_code(None, Some(9)), 137);
    assert_eq!(exit_code(None, None), 1);
}

#[test]
fn the_jar_says_what_it_restored_and_what_it_refused() {
    assert!(jar_notes("j", 0, 0).is_empty());
    let notes = jar_notes("/tmp/jar", 2, 1);
    assert_eq!(notes[0], "h5i-browser: restored 2 cookie(s) from /tmp/jar");
    assert!(notes[1].starts_with("h5i-browser: 1 cookie(s) in /tmp/jar were refused"));
}

// ------------------------------------------------------------------ batches

#[test]
fn a_page_that_fails_does_not_stop_the_ones_after_it() {
    assert!(check_targets(2, true).unwrap_err().contains("--screenshot"));
    assert!(check_targets(1, true).is_ok());

    let mut batch = Batch::new(2, true);
    assert_eq!(batch.unopened("a.html", "no such file"), None);
    batch.read(object(vec![("url", text("b.html"))]));
    assert_eq!(
        batch.verdict().unwrap_err(),
        "1 of 2 page(s) could not be read"
    );
    assert_eq!(
        batch.report().unwrap(),
        object(vec![(
            "results",
            Json::List(vec![
                object(vec![
                    ("url", text("a.html")),
                    ("ok", Json::Bool(false)),
                    ("error", text("no such file")),
                ]),
                object(vec![("url", text("b.html"))]),
            ])
        )])
    );

    // One target keeps the shape of one page.
    let mut single = Batch::new(1, true);
    single.read(text("page"));
    assert!(single.verdict().is_ok());
    assert_eq!(single.report().unwrap(), text("page"));

    let mut plain = Batch::new(2, false);
    assert_eq!(plain.unopened("a", "e").as_deref(), Some("a: e"));
    assert_eq!(plain.unread("b", "f"), "b: f");
    assert!(plain.parts(1) && !plain.parts(0));
    assert_eq!(plain.report(), None);
}

#[test]
fn a_page_lists_its_own_responses() {
    let first = RequestRecord::request(0, Initiator::Navigation, "GET", "https://a.example/");
    let second = RequestRecord::request(1, Initiator::Navigation, "GET", "https://b.example/");
    let log = vec![first.response(), second.clone(), second.response()];
    let own = own_records(log, 1);
    assert_eq!(own.len(), 2);
    let listed = responses(&own);
    assert_eq!(listed.len(), 1);
    assert_eq!(listed[0].phase, Phase::Response);
    assert_eq!(listed[0].url, "https://b.example/");
}

#[test]
fn a_page_is_reported_whole() {
    let page = one_page(PageReport {
        url: "https://a.example/".to_string(),
        title: None,
        snapshot: Json::Null,
        text: "hi".to_string(),
        requests: Json::List(vec![]),
        unsupported: vec![("WebGL".to_string(), 2)],
        console: vec![ConsoleLine {
            level: "error".to_string(),
            text: "boom".to_string(),
            source: "page".to_string(),
            repeats: 1,
        }],
        settled: None,
        script: true,
        screenshot: Some(("/tmp/x.png".to_string(), 12)),
    });
    assert_eq!(
        entry_of(&page, "unsupported"),
        format!(
            "{:?}",
            Json::List(vec![object(vec![("api", text("WebGL")), ("calls", number(2))])])
        )
    );
    assert_eq!(
        entry_of(&page, "screenshot"),
        format!("{:?}", object(vec![("path", text("/tmp/x.png")), ("bytes", number(12))]))
    );
    assert_eq!(entry_of(&page, "title"), "Null");
}

// ----------------------------------------------------------------- identity

fn identity(incoherences: Vec<Incoherence>, unmet: Vec<Unmet>) -> IdentityCheck {
    IdentityCheck {
        name: "native".to_string(),
        mode: "native".to_string(),
        digest: "d1".to_string(),
        user_agent: "agent".to_string(),
        accept_language: "en".to_string(),
        family: "Chrome".to_string(),
        script: false,
        incoherences,
        unmet,
        covers: vec!["headers".to_string()],
        does_not_cover: vec!["TLS".to_string()],
    }
}

#[test]
fn an_identity_is_refused_whole_or_presented_whole() {
    let fine = identity(vec![], vec![]);
    assert_eq!(
        check_text(&fine),
        vec![
            "native  (native, d1)",
            "  agent   agent",
            "  accepts en",
            "",
            "\u{2713} this engine can present it with script off",
            "",
            "  covers",
            "    headers",
            "  does not cover",
            "    TLS",
        ]
    );
    assert_eq!(entry_of(&check_report(&fine), "admitted"), "Bool(true)");

    let refused = identity(
        vec![],
        vec![Unmet { requires: "client-hints".to_string(), why: "absent".to_string() }],
    );
    let lines = check_text(&refused);
    assert!(lines.contains(&"\u{2717} refused".to_string()));
    assert!(lines.contains(&"    needs client-hints: absent".to_string()));
    assert!(lines.iter().any(|l| l.contains("claiming Chrome in front")));
    assert_eq!(entry_of(&check_report(&refused), "admitted"), "Bool(false)");

    let found = vec![Incoherence {
        field: "platform".to_string(),
        says: "Win32".to_string(),
        line: "platform says Win32".to_string(),
    }];
    assert_eq!(
        check_coherent("odd", &found).unwrap_err(),
        "the browser identity `odd` contradicts itself:\n  platform says Win32"
    );
    assert!(check_coherent("odd", &vec![]).is_ok());
    assert_eq!(
        identity_row("native", "native", "agent"),
        format!("{:<20} {:<11} {}", "native", "native", "agent")
    );
}

// ----------------------------------------------------------------- payloads

#[test]
fn a_payload_is_a_bounded_regular_file() {
    assert_eq!(
        payload_spec("body=/tmp/a=b").unwrap(),
        ("body".to_string(), "/tmp/a=b".to_string())
    );
    assert_eq!(
        payload_spec("body").unwrap_err(),
        "`--set-file body` is `target=path`, and this has no `=`"
    );
    assert!(check_payload("body", "/tmp/x", true, MAX_PAYLOAD_BYTES).is_ok());
    assert_eq!(MAX_PAYLOAD_BYTES, 64 * 1024 * 1024);
    assert!(check_payload("body", "/tmp/x", true, MAX_PAYLOAD_BYTES + 1)
        .unwrap_err()
        .contains("is 67108865 bytes, past the 67108864 byte limit"));
    assert!(check_payload("body", "/dev/zero", false, 0)
        .unwrap_err()
        .contains("/dev/zero is not a regular file"));
}

/// The base of a file, wherever the path leads.
fn base_of_file(path: &std::path::Path) -> Result<Url, String> {
    let absolute = match path.canonicalize() {
        Ok(resolved) => resolved,
        Err(_) => std::path::absolute(path).map_err(|e| e.to_string())?,
    };
    local_base(&absolute.display().to_string())
}

#[test]
fn a_relative_target_gets_an_absolute_file_base() {
    let base = base_of_file(std::path::Path::new("./page.html"))
        .expect("a relative path has a base");
    assert_eq!(base.scheme, "file");
    assert!(
        base.path.ends_with("/page.html"),
        "the base keeps the file it was built from: {}",
        base.href
    );
    assert!(
        !base.path.starts_with("/./"),
        "the cwd was joined rather than pasted: {}",
        base.href
    );
}

#[test]
fn a_path_that_cannot_be_walked_still_yields_a_base() {
    let missing = std::path::Path::new("./no-such-dir-b7f1/page.html");
    assert!(missing.canonicalize().is_err(), "the premise of this test");

    let base = base_of_file(missing).expect("an unwalkable path still has a base");
    assert_eq!(base.scheme, "file");
    assert!(base.path.ends_with("/no-such-dir-b7f1/page.html"), "{}", base.href);
}

#[test]
fn a_path_that_is_not_absolute_is_no_base() {
    assert_eq!(
        local_base("page.html"),
        Err("page.html cannot be expressed as a file:// base".to_string())
    );
    assert_eq!(
        base_from("/a b", Some("file:///a%20b".to_string())).expect("a base").path,
        "/a%20b"
    );
}
