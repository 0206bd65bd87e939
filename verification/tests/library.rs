use integration_changelog_watch::cli::{acknowledge_action, acknowledge_card, cli_scan_notice, find_action, scan_report, CliAction, CliState};
use integration_changelog_watch::config::{cli_state_dir, join_path, mountinfo_has_data_mount, nonempty, parse_command, parse_u16, server_port, Command};
use integration_changelog_watch::digest::{sha256_hex, to_hex, token_hash};
use integration_changelog_watch::limiter::RateLimiter;
use integration_changelog_watch::matching::{pick_rule, action_title_of, content_changed, failure_line, matched_keyword, notice_key, plan_action, scan_message};
use integration_changelog_watch::net::{addresses_are_public, client_ip, ensure_feed_response_is_safe, forbidden_ip, forwarded_client, status_is_success, IpAddress};
use integration_changelog_watch::notices::{absolute_url, notices_from_html_nodes, notices_from_xml_nodes, parse_notices, parse_xml_notices, DocNode, Notice};
use integration_changelog_watch::site::{build_from_env, build_label, cache_policy, render_page, too_many_requests_message};
use integration_changelog_watch::text::{chars_of, collapse_whitespace, replace, split_char, string_of, trim};
use integration_changelog_watch::topology::{access_token, durable_topology_patch, guard_opens, plan_topology_repair, TopologyRepair, production_guard_applies, topology_gate_blocks, topology_is_durable, topology_resource_url, Json, JsonNumber};
use integration_changelog_watch::watch::{action_found_check, bearer_token, check_resolved, inactive_workspace, internal_error, is_web_address, public_url_target, validate_watch_fields, validate_watch_import_count, validate_watch_resolution, validate_watch_target, url_target_of, watch_found_check, watch_limit_check, NewWatch, UrlParts};

const SECOND: u64 = 1_000_000_000;

fn watch(vendor: &str, url: &str, keywords: &str, owner: &str, version: &str, command: &str) -> NewWatch {
    NewWatch {
        vendor: vendor.to_owned(),
        url: url.to_owned(),
        keywords: keywords.to_owned(),
        owner: owner.to_owned(),
        version: version.to_owned(),
        command: command.to_owned(),
    }
}

fn notice(title: &str, excerpt: &str, url: &str) -> Notice {
    Notice { title: title.to_owned(), excerpt: excerpt.to_owned(), url: url.to_owned() }
}

fn s(text: &str) -> Json {
    Json::Str(text.to_owned())
}

fn num(n: u64) -> Json {
    Json::Number(JsonNumber::PosInt(n))
}

fn obj(members: Vec<(&str, Json)>) -> Json {
    Json::Object(members.into_iter().map(|(k, v)| (k.to_owned(), v)).collect())
}

fn element(depth: usize, name: &str) -> DocNode {
    DocNode { depth, name: Some(name.to_owned()), text: None, href: None }
}

fn text_node(depth: usize, text: &str) -> DocNode {
    DocNode { depth, name: None, text: Some(text.to_owned()), href: None }
}

fn in_order(n: usize) -> Vec<Option<usize>> {
    (0..n).map(Some).collect()
}

fn chars(text: &str) -> Vec<char> {
    text.chars().collect()
}

fn spend(limiter: &mut RateLimiter, ip: IpAddress, now: u64, requests: usize) -> (usize, usize) {
    let mut allowed = 0;
    let mut refused = 0;
    for _ in 0..requests {
        match limiter.check(ip, now) {
            None => allowed += 1,
            Some(seconds) => {
                assert_eq!(seconds, 1);
                refused += 1;
            }
        }
    }
    (allowed, refused)
}

fn durable_resource() -> Json {
    obj(vec![(
        "properties",
        obj(vec![(
            "template",
            obj(vec![
                ("scale", obj(vec![("minReplicas", num(1)), ("maxReplicas", num(1))])),
                (
                    "volumes",
                    Json::Array(vec![obj(vec![
                        ("name", s("workspace-data")),
                        ("storageType", s("AzureFile")),
                        ("storageName", s("integration-changelog-watch-data")),
                    ])]),
                ),
                (
                    "containers",
                    Json::Array(vec![
                        obj(vec![("name", s("sidecar"))]),
                        obj(vec![
                            ("name", s("app")),
                            (
                                "volumeMounts",
                                Json::Array(vec![obj(vec![
                                    ("volumeName", s("workspace-data")),
                                    ("mountPath", s("/data")),
                                ])]),
                            ),
                        ]),
                    ]),
                ),
            ]),
        )]),
    )])
}

#[test]
fn idle_client_gets_twenty_requests_back_each_second() {
    let ip = IpAddress::V4(203, 0, 114, 9);
    let mut limiter = RateLimiter::new();
    assert_eq!(spend(&mut limiter, ip, 7 * SECOND, 45), (40, 5));
    assert_eq!(spend(&mut limiter, ip, 8 * SECOND + 10, 25), (20, 5));
    assert_eq!(spend(&mut limiter, ip, 8 * SECOND + SECOND / 2, 1), (0, 1));
    assert_eq!(spend(&mut limiter, ip, 12 * SECOND, 45), (40, 5));
}

#[test]
fn refused_requests_spend_nothing() {
    let ip = IpAddress::V4(8, 8, 8, 8);
    let mut limiter = RateLimiter::new();
    assert_eq!(spend(&mut limiter, ip, SECOND, 40), (40, 0));
    assert_eq!(spend(&mut limiter, ip, SECOND + 1, 100), (0, 100));
    assert_eq!(spend(&mut limiter, ip, 2 * SECOND, 21), (20, 1));
}

#[test]
fn other_clients_keep_their_own_buckets() {
    let first = IpAddress::V4(198, 51, 100, 77);
    let second = IpAddress::V6(0x2001, 0xdb8, 0, 0, 0, 0, 0, 1);
    let mut limiter = RateLimiter::new();
    assert_eq!(spend(&mut limiter, first, 0, 41), (40, 1));
    assert_eq!(spend(&mut limiter, second, 0, 41), (40, 1));
    assert_eq!(spend(&mut limiter, IpAddress::V4(198, 51, 100, 78), 0, 1), (1, 0));
}

#[test]
fn clock_going_backwards_never_refills() {
    let ip = IpAddress::V4(1, 1, 1, 1);
    let mut limiter = RateLimiter::new();
    assert_eq!(spend(&mut limiter, ip, 10 * SECOND, 40), (40, 0));
    assert_eq!(spend(&mut limiter, ip, 3 * SECOND, 1), (0, 1));
}

#[test]
fn rate_limit_answers() {
    assert_eq!(too_many_requests_message(1), "Too many requests. Try again in 1 second(s).");
    assert_eq!(too_many_requests_message(42), "Too many requests. Try again in 42 second(s).");
}

#[test]
fn forbidden_addresses() {
    assert!(forbidden_ip(IpAddress::V4(172, 16, 0, 1)));
    assert!(forbidden_ip(IpAddress::V4(172, 31, 255, 255)));
    assert!(!forbidden_ip(IpAddress::V4(172, 32, 0, 1)));
    assert!(forbidden_ip(IpAddress::V4(169, 254, 1, 1)));
    assert!(forbidden_ip(IpAddress::V4(255, 255, 255, 255)));
    assert!(forbidden_ip(IpAddress::V4(0, 0, 0, 0)));
    assert!(forbidden_ip(IpAddress::V4(224, 0, 0, 1)));
    assert!(forbidden_ip(IpAddress::V4(203, 0, 113, 5)));
    assert!(!forbidden_ip(IpAddress::V4(1, 1, 1, 1)));
    assert!(forbidden_ip(IpAddress::V6(0, 0, 0, 0, 0, 0, 0, 1)));
    assert!(forbidden_ip(IpAddress::V6(0, 0, 0, 0, 0, 0, 0, 0)));
    assert!(forbidden_ip(IpAddress::V6(0xfe80, 0, 0, 0, 0, 0, 0, 1)));
    assert!(forbidden_ip(IpAddress::V6(0xfd00, 0, 0, 0, 0, 0, 0, 1)));
    assert!(forbidden_ip(IpAddress::V6(0xff02, 0, 0, 0, 0, 0, 0, 1)));
    assert!(!forbidden_ip(IpAddress::V6(0x2606, 0x4700, 0, 0, 0, 0, 0, 0x1111)));
    assert!(addresses_are_public(&vec![IpAddress::V4(1, 1, 1, 1), IpAddress::V4(8, 8, 4, 4)]));
    assert!(!addresses_are_public(&vec![IpAddress::V4(1, 1, 1, 1), IpAddress::V4(10, 1, 1, 1)]));
    assert!(!addresses_are_public(&vec![]));
}

#[test]
fn feed_status_rules() {
    assert_eq!(
        ensure_feed_response_is_safe(301),
        Err("This feed redirects. Use its final public HTTPS address instead.".to_owned())
    );
    assert_eq!(ensure_feed_response_is_safe(404), Err("The feed returned an error response.".to_owned()));
    assert_eq!(ensure_feed_response_is_safe(100), Err("The feed returned an error response.".to_owned()));
    assert_eq!(ensure_feed_response_is_safe(204), Ok(()));
    assert!(status_is_success(299));
    assert!(!status_is_success(300));
}

#[test]
fn forwarded_for_uses_its_first_hop() {
    assert_eq!(forwarded_client("  203.0.113.7 ,10.0.0.1"), "203.0.113.7");
    assert_eq!(forwarded_client("2001:db8::1"), "2001:db8::1");
    assert_eq!(forwarded_client(""), "");
    let peer = IpAddress::V4(10, 0, 0, 3);
    assert_eq!(client_ip(None, Some(peer)), peer);
    assert_eq!(client_ip(None, None), IpAddress::V4(0, 0, 0, 0));
    assert_eq!(client_ip(Some(IpAddress::V4(1, 2, 3, 4)), Some(peer)), IpAddress::V4(1, 2, 3, 4));
}

#[test]
fn port_parsing_follows_u16_rules() {
    assert_eq!(parse_u16("+80"), Some(80));
    assert_eq!(parse_u16("65535"), Some(65535));
    assert_eq!(parse_u16("65536"), None);
    assert_eq!(parse_u16(""), None);
    assert_eq!(parse_u16("+"), None);
    assert_eq!(parse_u16("-1"), None);
    assert_eq!(parse_u16(" 80"), None);
    assert_eq!(parse_u16("0080"), Some(80));
    assert_eq!(server_port(Some("abc".to_owned())), 8080);
    assert_eq!(server_port(Some("70000".to_owned())), 8080);
}

#[test]
fn paths_and_values() {
    assert_eq!(nonempty(String::new()), None);
    assert_eq!(nonempty("x".to_owned()), Some("x".to_owned()));
    assert_eq!(join_path("repo", "feed.xml"), "repo/feed.xml");
    assert_eq!(join_path("repo/", "feed.xml"), "repo/feed.xml");
    assert_eq!(join_path("", "feed.xml"), "feed.xml");
    assert_eq!(join_path("repo", "/abs/feed.xml"), "/abs/feed.xml");
    assert_eq!(cli_state_dir("repo", None), "repo/.integration-changelog-watch");
    assert_eq!(cli_state_dir("repo", Some("state")), "repo/state");
}

#[test]
fn mountinfo_lines_are_read_one_by_one() {
    let mounts = "22 1 0:21 / /proc rw - proc proc rw\n43 31 0:42 / /data rw,relatime - cifs share rw\n";
    assert!(mountinfo_has_data_mount(mounts));
    assert!(!mountinfo_has_data_mount("43 31 0:42 / /data/sub rw - cifs share rw"));
    assert!(!mountinfo_has_data_mount("/data"));
    assert!(!mountinfo_has_data_mount(""));
    assert!(mountinfo_has_data_mount("1\t2  3 4 /data\r\n"));
}

#[test]
fn command_line_dispatch() {
    let args = |v: &[&str]| v.iter().map(|a| a.to_string()).collect::<Vec<String>>();
    assert!(matches!(parse_command(&args(&[])), Command::Serve));
    assert!(matches!(parse_command(&args(&["scan", "-h"])), Command::Help));
    assert!(matches!(parse_command(&args(&["--demo"])), Command::Demo));
    match parse_command(&args(&["scan", "--config", "w.json"])) {
        Command::Scan { config } => assert_eq!(config.as_deref(), Some("w.json")),
        _ => panic!("expected scan"),
    }
    match parse_command(&args(&["scan", "--config"])) {
        Command::Scan { config } => assert_eq!(config, None),
        _ => panic!("expected scan"),
    }
    match parse_command(&args(&["ack", "--id", "abc", "--config", "w.json"])) {
        Command::Ack { config, id } => {
            assert_eq!(config.as_deref(), Some("w.json"));
            assert_eq!(id.as_deref(), Some("abc"));
        }
        _ => panic!("expected ack"),
    }
    assert!(matches!(parse_command(&args(&["serve"])), Command::Serve));
}

#[test]
fn digests_are_lowercase_sha256() {
    assert_eq!(
        sha256_hex("abc"),
        "ba7816bf8f01cfea414140de5dae2223b00361a396177a9cb410ff61f20015ad"
    );
    assert_eq!(
        token_hash(""),
        "e3b0c44298fc1c149afbf4c8996fb92427ae41e4649b934ca495991b7852b855"
    );
    assert_eq!(to_hex(&vec![0x00, 0x0f, 0xa0, 0xff]), chars("000fa0ff"));
    let hash = sha256_hex("abc");
    assert_eq!(token_hash(&hash), sha256_hex(&hash));
}

#[test]
fn keyword_rules_match_case_insensitively() {
    assert_eq!(
        matched_keyword(" , WebHook ,token", "Webhooks change", ""),
        Some("WebHook".to_owned())
    );
    assert_eq!(matched_keyword("token,webhook", "Webhook", "rotate the token"), Some("token".to_owned()));
    assert_eq!(matched_keyword("billing", "Webhook", "Token"), None);
    assert_eq!(matched_keyword(" , ", "anything", "at all"), None);
    assert_eq!(matched_keyword("hook ch", "Web", "hook change"), Some("hook ch".to_owned()));
    assert_eq!(matched_keyword("webhook", "Web", "hook"), None);
    assert_eq!(matched_keyword("b h", "Web", "hook"), Some("b h".to_owned()));
}

#[test]
fn action_titles_and_keys() {
    assert_eq!(action_title_of("", "Stripe"), "Matched change from Stripe");
    assert_eq!(action_title_of("Update", "Stripe"), "Update");
    assert_eq!(notice_key("T", "https://x"), sha256_hex("T\nhttps://x"));
    assert!(content_changed(None, "a"));
    assert!(content_changed(Some("a"), "b"));
    assert!(!content_changed(Some("a"), "a"));
    assert_eq!(failure_line("Stripe", "Could not reach this public feed."), "Stripe: Could not reach this public feed.");
    assert_eq!(scan_message(3, 0), "Scan complete. 3 new action card(s).");
    assert_eq!(scan_message(0, 2), "Scan finished with 2 feed error(s). Fix the listed address and scan again.");
}

#[test]
fn planned_card_keeps_the_first_420_characters() {
    let w = watch("Stripe", "https://stripe.example/feed", "webhook", "Maya", "", "npm test");
    let long: String = "é".repeat(500);
    let n = notice("", &format!("webhook {long}"), "https://stripe.example/n");
    let a = plan_action(&w, &n).unwrap();
    assert_eq!(a.title, "Matched change from Stripe");
    assert_eq!(a.excerpt.chars().count(), 420);
    assert!(a.excerpt.starts_with("webhook é"));
    assert_eq!(a.notice_key, sha256_hex("\nhttps://stripe.example/n"));
    assert_eq!(a.url, "https://stripe.example/n");
    assert!(plan_action(&w, &notice("Billing", "nothing", "u")).is_none());
}

#[test]
fn cli_card_layout() {
    let w = watch("Example", "feed.xml", "webhook", "Maya", "  ", "npm test");
    let mut state = CliState { actions: Vec::new() };
    let card = cli_scan_notice(&mut state, &w, &notice("", "Webhook moves", "feed.xml")).unwrap();
    let hash = sha256_hex("Matched change from Example\nfeed.xml");
    assert_eq!(card.notice_hash, hash);
    assert_eq!(card.id, hash[..12]);
    assert_eq!(
        card.text,
        format!(
            "# Matched change from Example\n\n- **Action ID:** `{}`\n- **Status:** Needs acknowledgement\n- **Matched rule:** webhook\n- **Owner:** Maya\n- **Affected dependency:** Not recorded\n- **Check:** `npm test`\n- **Notice:** feed.xml\n\nWebhook moves\n",
            &hash[..12]
        )
    );
    assert_eq!(state.actions.len(), 1);
    assert!(!state.actions[0].acknowledged);
    assert!(cli_scan_notice(&mut state, &w, &notice("", "No match", "feed.xml")).is_none());
}

#[test]
fn acknowledging_twice_is_acknowledging_once() {
    let mut state = CliState {
        actions: vec![
            CliAction { id: "a".to_owned(), notice_hash: "h1".to_owned(), acknowledged: false },
            CliAction { id: "b".to_owned(), notice_hash: "h2".to_owned(), acknowledged: false },
            CliAction { id: "b".to_owned(), notice_hash: "h3".to_owned(), acknowledged: false },
        ],
    };
    assert_eq!(find_action(&state, "b"), Ok(1));
    assert_eq!(acknowledge_action(&mut state, "b"), Ok(()));
    assert_eq!(acknowledge_action(&mut state, "b"), Ok(()));
    let flags: Vec<bool> = state.actions.iter().map(|a| a.acknowledged).collect();
    assert_eq!(flags, vec![false, true, false]);
    assert_eq!(
        acknowledge_action(&mut state, "zzz"),
        Err("that action ID does not exist in this repository state".to_owned())
    );
    let card = "# T\n- **Status:** Needs acknowledgement\n";
    let once = acknowledge_card(card).unwrap();
    assert_eq!(once, "# T\n- **Status:** Acknowledged\n");
    assert_eq!(acknowledge_card(&once), Ok(once.clone()));
    assert_eq!(
        acknowledge_card("# no status here"),
        Err("the repository action card has no acknowledgement status".to_owned())
    );
}

#[test]
fn scan_reports() {
    assert_eq!(
        scan_report(&vec![]),
        "# Integration changelog scan\n\nNo new matching notices found."
    );
    assert_eq!(
        scan_report(&vec!["Created a.md".to_owned(), "Created b.md".to_owned()]),
        "# Integration changelog scan\n\nCreated a.md\nCreated b.md"
    );
}

#[test]
fn watch_field_rules() {
    let ok = watch("Stripe", "https://stripe.example/feed", "webhook", "Maya", "", "npm test");
    assert!(validate_watch_fields(&ok).is_ok());
    let blank = watch("Stripe", "https://x", " \t", "Maya", "", "npm test");
    let e = validate_watch_fields(&blank).unwrap_err();
    assert_eq!((e.status, e.message.as_str()), (400, "Provide a vendor, public URL, keywords, owner, and check command."));
    let long_vendor = watch(&"v".repeat(121), "https://x", "k", "o", "", "c");
    let e = validate_watch_fields(&long_vendor).unwrap_err();
    assert_eq!(e.message, "The vendor is too long. Keep it to 120 characters or fewer.");
    let long_url = watch("v", &"u".repeat(2049), "k", "o", "", "c");
    assert_eq!(
        validate_watch_fields(&long_url).unwrap_err().message,
        "The public URL is too long. Keep it to 2048 characters or fewer."
    );
    let wide_owner = watch("v", "u", "k", &"é".repeat(81), "", "c");
    assert_eq!(
        validate_watch_fields(&wide_owner).unwrap_err().message,
        "The owner is too long. Keep it to 160 characters or fewer."
    );
    let long_version = watch("v", "u", "k", "o", &"1".repeat(121), "c");
    assert_eq!(
        validate_watch_fields(&long_version).unwrap_err().message,
        "The version is too long. Keep it to 120 characters or fewer."
    );
    let long_command = watch("v", "u", "k", "o", "", &"c".repeat(501));
    assert_eq!(
        validate_watch_fields(&long_command).unwrap_err().message,
        "The check command is too long. Keep it to 500 characters or fewer."
    );
    let long_keywords = watch("v", "u", &"k".repeat(501), "o", "", "c");
    assert_eq!(
        validate_watch_fields(&long_keywords).unwrap_err().message,
        "The keywords is too long. Keep it to 500 characters or fewer."
    );
    for count in [0usize, 4] {
        let e = validate_watch_import_count(count).unwrap_err();
        assert_eq!((e.status, e.message.as_str()), (400, "Import one to three watches into the hosted workspace."));
    }
    assert!(validate_watch_import_count(3).is_ok());
}

#[test]
fn watch_address_rules() {
    let t = public_url_target("https://vendor.example/feed.xml").unwrap();
    assert_eq!((t.host.as_str(), t.port), ("vendor.example", 443));
    let t = public_url_target("http://vendor.example:8080/").unwrap();
    assert_eq!((t.host.as_str(), t.port), ("vendor.example", 8080));
    assert_eq!(
        public_url_target("ftp://vendor.example/feed").err().unwrap(),
        "Enter a complete public http or https URL without credentials."
    );
    assert_eq!(
        public_url_target("https://user:pw@vendor.example/").err().unwrap(),
        "Enter a complete public http or https URL without credentials."
    );
    assert_eq!(
        public_url_target("not a url").err().unwrap(),
        "Enter a complete public http or https URL."
    );
    assert!(is_web_address("HTTPS://vendor.example"));
    assert!(!is_web_address("feed.xml"));
    assert!(!is_web_address("file:///tmp/feed.xml"));
    let bad = watch("v", "http://", "k", "o", "", "c");
    let e = validate_watch_target(&bad).unwrap_err();
    assert_eq!(e.status, 400);
    let blocked = watch("v", "https://1.1.1.1/feed", "k", "o", "", "c");
    assert_eq!(validate_watch_target(&blocked).unwrap().host, "1.1.1.1");
    assert_eq!(check_resolved(&None), Err("The feed host could not be resolved.".to_owned()));
    assert_eq!(
        check_resolved(&Some(vec![IpAddress::V4(127, 0, 0, 1)])),
        Err("Use a public internet address; private, loopback, and link-local networks are blocked.".to_owned())
    );
    assert_eq!(
        check_resolved(&Some(vec![])),
        Err("Use a public internet address; private, loopback, and link-local networks are blocked.".to_owned())
    );
    assert_eq!(check_resolved(&Some(vec![IpAddress::V4(1, 1, 1, 1)])), Ok(()));
    assert_eq!(validate_watch_resolution(&None).unwrap_err().status, 400);
}

#[test]
fn workspace_answers() {
    let token = "t".repeat(32);
    assert_eq!(bearer_token(Some(&format!("Bearer {token}"))).unwrap(), token);
    for header in [None, Some("Bearer short"), Some("Basic abcdefghijabcdefghijabcdefghijab"), Some("bearer ttttttttttttttttttttttttttttttttt")] {
        let e = bearer_token(header).unwrap_err();
        assert_eq!((e.status, e.message.as_str()), (401, "Create or restore this browser workspace before using the API."));
    }
    let wide = "é".repeat(16);
    assert_eq!(bearer_token(Some(&format!("Bearer {wide}"))).unwrap(), wide);
    let e = watch_limit_check(0).unwrap_err();
    assert_eq!((e.status, e.message.as_str()), (409, "This workspace already has three watches. Edit an existing watch before adding another."));
    assert!(watch_limit_check(1).is_ok());
    let e = watch_found_check(0).unwrap_err();
    assert_eq!((e.status, e.message.as_str()), (404, "That watch does not exist in this workspace."));
    let e = action_found_check(2).unwrap_err();
    assert_eq!((e.status, e.message.as_str()), (404, "That action does not exist in this workspace."));
    assert!(action_found_check(1).is_ok());
    let e = inactive_workspace();
    assert_eq!((e.status, e.message.as_str()), (401, "This workspace token is not active on the server."));
    let e = internal_error();
    assert_eq!((e.status, e.message.as_str()), (500, "The server could not complete that request. Try again."));
}

#[test]
fn notice_links_resolve_against_the_feed() {
    assert_eq!(absolute_url("https://vendor.example/feed/", "notice"), "https://vendor.example/feed/notice");
    assert_eq!(absolute_url("https://vendor.example/feed", "https://other.example/x"), "https://other.example/x");
    assert_eq!(absolute_url("feed.xml", "https://other.example/x"), "feed.xml");
    assert_eq!(absolute_url("https://vendor.example", ""), "https://vendor.example/");
}

#[test]
fn xml_entries_from_a_node_list() {
    let root = || DocNode { depth: 1, name: None, text: None, href: None };
    let nodes = vec![
        root(),
        element(2, "rss"),
        element(3, "channel"),
        element(4, "item"),
        element(5, "title"),
        text_node(6, "  Token\n rotation "),
        element(5, "summary"),
        text_node(6, "<b>Rotate</b> now"),
        element(5, "link"),
        text_node(6, "/n/1"),
        element(4, "item"),
        element(5, "link"),
    ];
    let notices = notices_from_xml_nodes(&nodes, "https://vendor.example/feed").unwrap();
    assert_eq!(notices.len(), 2);
    assert_eq!(notices[0].title, "Token rotation");
    assert_eq!(notices[0].excerpt, "Rotate now");
    assert_eq!(notices[0].url, "https://vendor.example/n/1");
    assert_eq!(notices[1].title, "");
    assert_eq!(notices[1].url, "https://vendor.example/feed");
    let bare = vec![root(), element(2, "rss"), element(3, "channel")];
    assert!(notices_from_xml_nodes(&bare, "https://vendor.example/feed").is_none());
}

#[test]
fn html_entries_and_headings_from_a_node_list() {
    let items = vec![
        element(1, "html"),
        element(2, "body"),
        element(3, "entry"),
        element(4, "title"),
        text_node(5, "First"),
        element(4, "content"),
        text_node(5, "  Body  text "),
        DocNode { depth: 4, name: Some("link".to_owned()), text: None, href: Some("/one".to_owned()) },
    ];
    let notices = notices_from_html_nodes(&items, &in_order(items.len()), "https://vendor.example/news");
    assert_eq!(notices.len(), 1);
    assert_eq!(notices[0].title, "First");
    assert_eq!(notices[0].excerpt, "Body text");
    assert_eq!(notices[0].url, "https://vendor.example/one");
    let headings = vec![
        element(1, "main"),
        element(2, "h1"),
        text_node(3, "Release"),
        element(2, "h3"),
        text_node(3, "   "),
        element(2, "h2"),
        text_node(3, "Breaking"),
        text_node(3, "change"),
    ];
    let notices = notices_from_html_nodes(&headings, &in_order(headings.len()), "https://vendor.example/c");
    let titles: Vec<&str> = notices.iter().map(|n| n.title.as_str()).collect();
    assert_eq!(titles, vec!["Release", "Breaking change"]);
    assert!(notices.iter().all(|n| n.url == "https://vendor.example/c" && n.excerpt.is_empty()));
}

#[test]
fn feeds_of_each_kind() {
    assert!(parse_xml_notices("<p>not xml", "https://x.example/").is_none());
    assert!(parse_xml_notices("<rss><channel></channel></rss>", "https://x.example/").is_none());
    let html = parse_notices(
        "<html><body><div class=\"item\"></div><item><title>Shipped</title><link>/a</link></item></body></html>",
        "https://x.example/feed",
    );
    assert_eq!(html.len(), 1);
    assert_eq!(html[0].title, "Shipped");
    assert!(parse_notices("plain words only", "https://x.example/").is_empty());
    let atom = parse_notices(
        "<feed><entry><title>A</title><content>one</content></entry><entry><title>B</title><link href=\"https://y.example/b\"/></entry></feed>",
        "https://x.example/atom",
    );
    assert_eq!(atom.len(), 2);
    assert_eq!(atom[0].url, "https://x.example/atom");
    assert_eq!(atom[0].excerpt, "one");
    assert_eq!(atom[1].url, "https://y.example/b");
}

#[test]
fn site_rules() {
    assert_eq!(cache_policy("/assets/app.js"), "public, max-age=31536000, immutable");
    assert_eq!(cache_policy("/paper-cut-hero.webp"), "public, max-age=604800");
    assert_eq!(cache_policy("/favicon.svg"), "public, max-age=604800");
    assert_eq!(cache_policy("/"), "no-cache");
    assert_eq!(
        render_page("<p>{{BUILD_ID}}</p><i>{{BUILD_ID}}</i>", "a&b<'\">"),
        "<p>a&amp;b&lt;&#39;&quot;&gt;</p><i>a&amp;b&lt;&#39;&quot;&gt;</i>"
    );
    assert_eq!(render_page("no marker", "x"), "no marker");
    assert_eq!(build_from_env(Some("dev".to_owned())), None);
    assert_eq!(build_from_env(Some("abc".to_owned())), Some("abc".to_owned()));
    assert_eq!(build_from_env(None), None);
    assert_eq!(build_label(Some("  abc123\n".to_owned())), "abc123");
    assert_eq!(build_label(Some("   ".to_owned())), "dev");
    assert_eq!(build_label(None), "dev");
}

#[test]
fn topology_repair_is_durable() {
    assert!(topology_is_durable(&durable_resource()));
    let patch = durable_topology_patch(durable_resource()).unwrap();
    assert!(topology_is_durable(&patch));
    let no_app = obj(vec![(
        "properties",
        obj(vec![("template", obj(vec![("containers", Json::Array(vec![obj(vec![("name", s("web"))])]))]))]),
    )]);
    assert!(!topology_is_durable(&no_app));
    assert_eq!(
        durable_topology_patch(no_app).err(),
        Some("Container App has no app container to repair".to_owned())
    );
    let two_replicas = obj(vec![(
        "properties",
        obj(vec![("template", obj(vec![("scale", obj(vec![("minReplicas", num(1)), ("maxReplicas", num(2))]))]))]),
    )]);
    assert!(!topology_is_durable(&two_replicas));
}

#[test]
fn topology_guard_settings() {
    assert_eq!(access_token(&obj(vec![("access_token", s("tok"))])), Ok("tok".to_owned()));
    assert_eq!(
        access_token(&obj(vec![("access_token", num(3))])),
        Err("deployment identity returned no access token".to_owned())
    );
    assert_eq!(
        topology_resource_url("/subscriptions/s/app"),
        "https://management.azure.com/subscriptions/s/app?api-version=2024-03-01"
    );
    assert!(production_guard_applies(Some("sf-integration-changelog-watch"), true, true));
    assert!(!production_guard_applies(Some("sf-integration-changelog-watch"), true, false));
    assert!(!production_guard_applies(Some("other"), true, true));
    assert!(!production_guard_applies(None, true, true));
    assert!(topology_gate_blocks("/api/watches", false));
    assert!(!topology_gate_blocks("/health", false));
    assert!(!topology_gate_blocks("/api/watches", true));
}

#[test]
fn text_helpers() {
    assert_eq!(chars_of("aé"), chars("aé"));
    assert_eq!(string_of(&chars("x y")), "x y");
    assert_eq!(collapse_whitespace(&chars("  a \n\t b  ")), chars("a b"));
    assert_eq!(trim(&chars("\u{3000} a b \n")), chars("a b"));
    assert_eq!(split_char(&chars("a,,b"), ','), vec![chars("a"), chars(""), chars("b")]);
    assert_eq!(replace(&chars("aXbXX"), &chars("X"), &chars("yy")), chars("ayybyyyy"));
    assert_eq!(replace(&chars("aaa"), &chars("aa"), &chars("b")), chars("ba"));
}

#[test]
fn reconciliation_decisions() {
    assert!(matches!(plan_topology_repair(durable_resource(), true), Ok(TopologyRepair::Ready)));
    match plan_topology_repair(durable_resource(), false) {
        Ok(TopologyRepair::Patch(patch)) => assert!(topology_is_durable(&patch)),
        other => panic!("expected a patch, got {other:?}"),
    }
    assert_eq!(
        plan_topology_repair(Json::Null, true).err(),
        Some("Container App has no app container to repair".to_owned())
    );
    assert!(guard_opens(&Ok(true)));
    assert!(!guard_opens(&Ok(false)));
    assert!(!guard_opens(&Err("deployment identity returned 500".to_owned())));
}

#[test]
fn scanned_card_is_acknowledged_by_its_id() {
    let w = watch("Example", "https://example.com/feed", "deprecat", "Maya", "sdk 1", "npm test");
    let mut state = CliState { actions: Vec::new() };
    let card = cli_scan_notice(&mut state, &w, &notice("API deprecation", "", "https://example.com/n")).unwrap();
    assert_eq!(acknowledge_action(&mut state, &card.id), Ok(()));
    assert!(state.actions[0].acknowledged);
    let once = acknowledge_card(&card.text).unwrap();
    assert!(once.contains("- **Status:** Acknowledged\n"));
    assert_eq!(acknowledge_card(&once), Ok(once.clone()));
}

fn parts(scheme: &str, username: &str, password: Option<&str>, host: Option<&str>, port: Option<u16>) -> Option<UrlParts> {
    Some(UrlParts {
        scheme: scheme.to_owned(),
        username: username.to_owned(),
        password: password.map(str::to_owned),
        host: host.map(str::to_owned),
        port,
    })
}

#[test]
fn address_rules_on_parsed_urls() {
    let t = url_target_of(parts("https", "", None, Some("vendor.example"), Some(443))).unwrap();
    assert_eq!((t.host.as_str(), t.port), ("vendor.example", 443));
    assert_eq!(url_target_of(None).err().unwrap(), "Enter a complete public http or https URL.");
    assert_eq!(
        url_target_of(parts("http", "", Some(""), Some("h"), Some(80))).err().unwrap(),
        "Enter a complete public http or https URL without credentials."
    );
    assert_eq!(
        url_target_of(parts("https", "me", None, Some("h"), Some(443))).err().unwrap(),
        "Enter a complete public http or https URL without credentials."
    );
    assert_eq!(url_target_of(parts("http", "", None, None, Some(80))).err().unwrap(), "The feed URL has no host.");
    assert_eq!(url_target_of(parts("http", "", None, Some("h"), None)).err().unwrap(), "The feed URL has no usable port.");
}

#[test]
fn rules_are_picked_in_order() {
    let pieces = vec![chars(" "), chars(" Token "), chars("Webhook")];
    let lowered = vec![chars(""), chars("token"), chars("webhook")];
    assert_eq!(pick_rule(&pieces, &lowered, &chars("webhook and token")), Some("Token".to_owned()));
    assert_eq!(pick_rule(&pieces, &lowered, &chars("a webhook")), Some("Webhook".to_owned()));
    assert_eq!(pick_rule(&pieces, &lowered, &chars("nothing here")), None);
}

#[test]
fn mapped_ipv4_addresses_are_judged_by_their_ipv4_part() {
    assert!(forbidden_ip(IpAddress::V6(0, 0, 0, 0, 0, 0xffff, 0x7f00, 0x0001)));
    assert!(forbidden_ip(IpAddress::V6(0, 0, 0, 0, 0, 0xffff, 0x0a00, 0x0004)));
    assert!(forbidden_ip(IpAddress::V6(0, 0, 0, 0, 0, 0xffff, 0xc0a8, 0x0101)));
    assert!(!forbidden_ip(IpAddress::V6(0, 0, 0, 0, 0, 0xffff, 0x0101, 0x0101)));
    assert!(!forbidden_ip(IpAddress::V6(0, 0, 0, 0, 1, 0xffff, 0x7f00, 0x0001)));
    assert_eq!(
        check_resolved(&Some(vec![IpAddress::V6(0, 0, 0, 0, 0, 0xffff, 0x7f00, 0x0001)])),
        Err("Use a public internet address; private, loopback, and link-local networks are blocked.".to_owned())
    );
}

#[test]
fn html_entries_are_listed_in_creation_order() {
    let nodes = vec![
        element(0, ""),
        element(1, "body"),
        element(2, "item"),
        element(3, "title"),
        text_node(4, "Second created"),
        element(2, "item"),
        element(3, "title"),
        text_node(4, "First created"),
        element(2, "h2"),
    ];
    let arena = vec![Some(0), Some(1), Some(5), Some(6), Some(7), Some(2), Some(3), Some(4), None, Some(8)];
    let notices = notices_from_html_nodes(&nodes, &arena, "https://vendor.example/");
    let titles: Vec<&str> = notices.iter().map(|n| n.title.as_str()).collect();
    assert_eq!(titles, vec!["First created", "Second created"]);
    let headings = vec![element(0, ""), element(1, "h1"), text_node(2, "A"), element(1, "h3"), text_node(2, "B")];
    let notices = notices_from_html_nodes(&headings, &vec![Some(3), Some(4), Some(0), Some(1), Some(2), Some(99)], "https://v/");
    let titles: Vec<&str> = notices.iter().map(|n| n.title.as_str()).collect();
    assert_eq!(titles, vec!["B", "A"]);
}

#[test]
fn misplaced_table_content_keeps_parser_order() {
    let notices = parse_notices(
        "<html><body><table><tr><td><h2>Inside</h2></td></tr><h2>Moved out</h2></table></body></html>",
        "https://vendor.example/c",
    );
    let titles: Vec<&str> = notices.iter().map(|n| n.title.as_str()).collect();
    assert_eq!(titles, vec!["Inside", "Moved out"]);
}

#[test]
fn a_second_whole_scan_adds_nothing() {
    let watches = [
        watch("A", "https://a.example/feed", "webhook", "Maya", "a 1", "npm test"),
        watch("B", "https://b.example/feed", "token, webhook", "Ishan", "", "pnpm test"),
    ];
    let notices = [
        notice("Webhook v2", "", "https://a.example/1"),
        notice("Token rotation", "webhook too", "https://a.example/2"),
        notice("Pricing", "nothing", "https://a.example/3"),
    ];
    let mut state = CliState {
        actions: vec![CliAction { id: "old".to_owned(), notice_hash: "h".to_owned(), acknowledged: true }],
    };
    let mut written = 0;
    for w in &watches {
        for n in &notices {
            if cli_scan_notice(&mut state, w, n).is_some() {
                written += 1;
            }
        }
    }
    // The second watch matches the same notices, which already have cards.
    assert_eq!(written, 2);
    assert_eq!(state.actions.len(), 3);
    assert_eq!((state.actions[0].id.as_str(), state.actions[0].acknowledged), ("old", true));
    for a in &state.actions[1..] {
        assert!(!a.acknowledged);
        assert_eq!(a.id, a.notice_hash[..12]);
    }
    let before: Vec<String> = state.actions.iter().map(|a| a.notice_hash.clone()).collect();
    for w in &watches {
        for n in &notices {
            assert!(cli_scan_notice(&mut state, w, n).is_none());
        }
    }
    let after: Vec<String> = state.actions.iter().map(|a| a.notice_hash.clone()).collect();
    assert_eq!(before, after);
}

#[test]
fn passes_in_a_window_stay_within_the_allowance() {
    let ip = IpAddress::V4(9, 9, 9, 9);
    let mut limiter = RateLimiter::new();
    let start = 50 * SECOND;
    let mut passed = 0;
    for i in 0..300u64 {
        let now = start + i * (SECOND / 100);
        if limiter.check(ip, now).is_none() {
            passed += 1;
        }
    }
    // 300 requests over 2.99 seconds: 40 at once and 20 for each of two whole seconds.
    assert_eq!(passed, 80);
}
