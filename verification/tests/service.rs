use integration_changelog_watch::cli::{acknowledge_action, acknowledge_card, cli_scan_notice, CliState};
use integration_changelog_watch::config::{default_database_url, mountinfo_has_data_mount, server_port};
use integration_changelog_watch::digest::token_hash;
use integration_changelog_watch::limiter::RateLimiter;
use integration_changelog_watch::matching::plan_action;
use integration_changelog_watch::net::{client_ip, ensure_feed_response_is_safe, forbidden_ip, forwarded_client, IpAddress};
use integration_changelog_watch::notices::parse_notices;
use integration_changelog_watch::site::retry_after_value;
use integration_changelog_watch::topology::{durable_topology_patch, topology_is_durable, Json, JsonNumber};
use integration_changelog_watch::watch::{is_web_address, public_url_target, NewWatch};

fn s(text: &str) -> Json {
    Json::Str(text.to_owned())
}

fn num(n: u64) -> Json {
    Json::Number(JsonNumber::PosInt(n))
}

fn obj(members: Vec<(&str, Json)>) -> Json {
    Json::Object(members.into_iter().map(|(k, v)| (k.to_owned(), v)).collect())
}

fn field<'a>(value: &'a Json, key: &str) -> &'a Json {
    match value {
        Json::Object(members) => members
            .iter()
            .find(|(k, _)| k == key)
            .map(|(_, v)| v)
            .expect("member is present"),
        _ => panic!("not an object"),
    }
}

fn item(value: &Json, index: usize) -> &Json {
    match value {
        Json::Array(items) => &items[index],
        _ => panic!("not an array"),
    }
}

fn is_str(value: &Json, text: &str) -> bool {
    matches!(value, Json::Str(x) if x == text)
}

fn is_int(value: &Json, n: u64) -> bool {
    matches!(value, Json::Number(JsonNumber::PosInt(x)) if *x == n)
}

fn watch(vendor: &str, url: &str, keywords: &str, owner: &str, version: &str, command: &str) -> NewWatch {
    NewWatch {
        vendor: vendor.to_owned(),
        url: url.to_owned(),
        keywords: keywords.to_owned(),
        owner: owner.to_owned(),
        version: version.to_owned(),
        command: command.to_owned(),
    }
}

#[test]
fn parses_every_matching_rss_and_preserves_notice_permalink() {
    let notices = parse_notices("<rss><channel><item><title>Webhook deprecation</title><description>Move now</description><link>https://vendor.example/one</link></item><item><title>Webhook retry change</title><description>Read this</description><link>https://vendor.example/two</link></item></channel></rss>", "https://vendor.example/feed.xml");
    assert_eq!(notices.len(), 2);
    assert_eq!(notices[1].url, "https://vendor.example/two");
}

#[test]
fn claim_hosted_scan_creates_action_card_from_controlled_fixture() {
    let w = watch(
        "Fixture vendor",
        "https://vendor.example/feed.xml",
        "webhook,deprecation",
        "Maya · Payments",
        "fixture-sdk 2.4",
        "pnpm test:fixture",
    );
    let fixture = "<rss><channel><item><title>Webhook deprecation date</title><description>Update webhook signatures before June.</description><link>https://vendor.example/notice</link></item></channel></rss>";
    let notices = parse_notices(fixture, &w.url);
    let actions: Vec<_> = notices.iter().filter_map(|n| plan_action(&w, n)).collect();
    assert_eq!(actions.len(), 1);
    let action = &actions[0];
    assert_eq!(action.title, "Webhook deprecation date");
    assert_eq!(action.matched, "webhook");
    assert_eq!(action.owner, "Maya · Payments");
    assert_eq!(action.version, "fixture-sdk 2.4");
    assert_eq!(action.command, "pnpm test:fixture");
}

#[test]
fn parses_atom_html_titles_and_html_changelog_headings() {
    let atom = parse_notices("<feed><entry><title type=\"html\">Token &amp; webhook update</title><summary>Deprecation notice</summary><link href=\"/notice\" /></entry></feed>", "https://vendor.example/feed");
    assert_eq!(atom[0].title, "Token & webhook update");
    assert_eq!(atom[0].url, "https://vendor.example/notice");
    let html = parse_notices(
        "<main><h2>Webhook deprecation</h2></main>",
        "https://vendor.example/changelog",
    );
    assert_eq!(html[0].title, "Webhook deprecation");
}

#[test]
fn blocks_private_and_malformed_destinations() {
    assert!(forbidden_ip(IpAddress::V4(127, 0, 0, 1)));
    assert!(forbidden_ip(IpAddress::V4(10, 0, 0, 4)));
    assert!(public_url_target("httpjunk").is_err());
    assert!(!is_web_address("httpjunk"));
}

#[test]
fn workspace_tokens_are_not_plaintext_rows() {
    let token = "a-very-long-workspace-token";
    assert_ne!(token_hash(token), token);
}

#[test]
fn ingress_client_ip_shares_one_bucket_across_connections_and_ignores_later_hops() {
    let mut limiter = RateLimiter::new();
    let now: u64 = 5_000_000_000;
    let mut allowed = 0;
    let mut limited = 0;
    for request_number in 0..80u8 {
        let header = format!("198.51.100.77, 192.0.2.{request_number}");
        assert_eq!(forwarded_client(&header), "198.51.100.77");
        let ip = client_ip(
            Some(IpAddress::V4(198, 51, 100, 77)),
            Some(IpAddress::V4(10, 0, 0, request_number)),
        );
        match limiter.check(ip, now + request_number as u64) {
            None => allowed += 1,
            Some(seconds) => {
                limited += 1;
                assert_eq!(retry_after_value(seconds), "1");
            }
        }
    }
    assert_eq!((allowed, limited), (40, 40));
}

#[test]
fn claim_port_only_startup_configuration() {
    assert_eq!(server_port(None), 8080);
    assert_eq!(server_port(Some("9090".to_owned())), 9090);
    assert_eq!(
        default_database_url(),
        "sqlite:/data/changelog-watch.db?mode=rwc&vfs=unix-dotfile"
    );
}

#[test]
fn claim_single_replica_durable_topology() {
    let generic = obj(vec![(
        "properties",
        obj(vec![(
            "template",
            obj(vec![
                ("scale", obj(vec![("minReplicas", num(1)), ("maxReplicas", num(3))])),
                (
                    "containers",
                    Json::Array(vec![obj(vec![
                        ("name", s("app")),
                        ("image", s("registry.example/product:repair")),
                        (
                            "resources",
                            obj(vec![
                                ("cpu", Json::Number(JsonNumber::Float(0.5f64.to_bits()))),
                                ("memory", s("1Gi")),
                            ]),
                        ),
                        (
                            "env",
                            Json::Array(vec![obj(vec![("name", s("PORT")), ("value", s("8080"))])]),
                        ),
                    ])]),
                ),
            ]),
        )]),
    )]);
    assert!(!topology_is_durable(&generic));
    let patch = durable_topology_patch(generic).unwrap();
    let template = field(field(&patch, "properties"), "template");
    assert!(is_int(field(field(template, "scale"), "maxReplicas"), 1));
    let container = item(field(template, "containers"), 0);
    assert!(is_str(field(container, "image"), "registry.example/product:repair"));
    assert!(is_str(
        field(item(field(container, "volumeMounts"), 0), "mountPath"),
        "/data"
    ));
    assert!(mountinfo_has_data_mount(
        "43 31 0:42 / /data rw,relatime - cifs share rw"
    ));
    assert!(!mountinfo_has_data_mount(
        "43 31 0:42 / /app rw,relatime - overlay overlay rw"
    ));
}

#[test]
fn replica_local_rate_limits_fragment_the_40_request_allowance() {
    let client = IpAddress::V4(198, 51, 100, 77);
    let mut accepted = 0;
    for mut limiter in [RateLimiter::new(), RateLimiter::new()] {
        for i in 0..40u64 {
            if limiter.check(client, 1_000 + i).is_none() {
                accepted += 1;
            }
        }
    }
    assert_eq!(accepted, 80);
}

#[test]
fn parses_standard_rss_cdata_as_readable_text() {
    let notices = parse_notices(
        "<rss><channel><item><title><![CDATA[Unix V4 Workshop at Low Resource Computing]]></title><description><![CDATA[<p>A webhook migration closes Friday.</p>]]></description><link>https://vendor.example/workshop</link></item></channel></rss>",
        "https://vendor.example/feed.xml",
    );
    assert_eq!(notices.len(), 1);
    assert_eq!(
        notices[0].title,
        "Unix V4 Workshop at Low Resource Computing"
    );
    assert_eq!(notices[0].excerpt, "A webhook migration closes Friday.");
}

#[test]
fn claim_redirecting_feeds_are_rejected() {
    assert_eq!(
        ensure_feed_response_is_safe(307),
        Err("This feed redirects. Use its final public HTTPS address instead.".to_owned())
    );
    assert_eq!(
        ensure_feed_response_is_safe(502),
        Err("The feed returned an error response.".to_owned())
    );
    assert_eq!(ensure_feed_response_is_safe(200), Ok(()));
}

#[test]
fn cli_scan_persists_deduplication_and_acknowledgements_for_local_repository_feeds() {
    let feed = "<rss><channel><item><title><![CDATA[Webhook update]]></title><description><![CDATA[<p>Move webhook fixture</p>]]></description><link>https://example.com/notice</link></item></channel></rss>";
    let w = watch("Example", "feed.xml", "webhook", "Maya", "example-sdk 4.2", "npm test");
    let mut state = CliState { actions: Vec::new() };
    let mut cards = Vec::new();
    for notice in parse_notices(feed, &w.url) {
        if let Some(card) = cli_scan_notice(&mut state, &w, &notice) {
            cards.push(card);
        }
    }
    assert_eq!(state.actions.len(), 1);
    assert_eq!(cards.len(), 1);
    let id = state.actions[0].id.clone();
    assert_eq!(cards[0].id, id);
    let card = cards[0].text.clone();
    assert!(card.contains("# Webhook update"));
    assert!(card.contains("Move webhook fixture"));
    assert!(card.contains("**Affected dependency:** example-sdk 4.2"));
    assert!(card.contains("**Status:** Needs acknowledgement"));
    assert!(!card.contains("CDATA"));
    for notice in parse_notices(feed, &w.url) {
        assert!(cli_scan_notice(&mut state, &w, &notice).is_none());
    }
    assert_eq!(state.actions.len(), 1);
    let updated = acknowledge_card(&card).unwrap();
    assert_eq!(acknowledge_action(&mut state, &id), Ok(()));
    assert!(state.actions[0].acknowledged);
    assert!(updated.contains("**Status:** Acknowledged"));
    assert!(!updated.contains("**Status:** Needs acknowledgement"));
}
