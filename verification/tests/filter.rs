use std::collections::HashMap;

use token_ceiling::clock::saturate_millis;
use token_ceiling::config::{
    KeySource, KeySourceConfig, MissingKeyPolicy, TokenCeilingConfig,
};
use token_ceiling::filter::{
    carry_out, resolve_key, usable_key, RequestDecision, TokenCeilingFilter, MAX_TRACKED_KEYS,
    META_CEILING_KEY, META_TOKEN_TOTAL,
};
use token_ceiling::headers::read_header;
use token_ceiling::ledger::Charge;
use token_ceiling::ordered_map::OrderedMap;
use token_ceiling::rejection::{ceiling_exceeded, missing_key_rejection, FilterAction, Rejection};
use token_ceiling::text::decimal;

/// The text at `name` in a YAML block.
fn text_at(block: Option<&serde_yaml::Value>, name: &str) -> Option<String> {
    block
        .and_then(|block| block.get(name))
        .and_then(|value| value.as_str())
        .map(|text| text.to_owned())
}

/// Reads YAML into a config, panicking on anything it cannot hold.
fn parse(yaml: &str) -> TokenCeilingConfig {
    let value: serde_yaml::Value = serde_yaml::from_str(yaml).expect("test YAML should parse");
    let mut ceilings: OrderedMap<u64> = OrderedMap::new();
    if let Some(listed) = value.get("ceilings").and_then(|block| block.as_mapping()) {
        for (key, ceiling) in listed {
            ceilings.insert(
                key.as_str().expect("ceilings keys are text"),
                ceiling.as_u64().expect("ceilings are numbers"),
            );
        }
    }
    TokenCeilingConfig {
        window: text_at(Some(&value), "window").expect("window is required"),
        key: KeySourceConfig {
            metadata: text_at(value.get("key"), "metadata"),
            header: text_at(value.get("key"), "header"),
        },
        missing_key: match text_at(Some(&value), "missing_key").as_deref() {
            None | Some("allow") => MissingKeyPolicy::Allow,
            Some("reject") => MissingKeyPolicy::Reject,
            Some(other) => panic!("unknown policy {other}"),
        },
        ceilings,
        default_ceiling: value.get("default_ceiling").and_then(|ceiling| ceiling.as_u64()),
    }
}

/// Builds the filter from YAML, panicking on config errors.
fn concrete(yaml: &str) -> TokenCeilingFilter {
    TokenCeilingFilter::from_config(parse(yaml)).expect("test config should build")
}

/// Unwraps a [`RequestDecision::Rejected`] into its [`Rejection`].
fn rejection(decision: RequestDecision) -> Rejection {
    match decision {
        RequestDecision::Rejected(FilterAction::Reject(rejection)) => rejection,
        other => panic!("expected a rejection, got {other:?}"),
    }
}

/// The headers of a rejection by name.
fn headers_of(rejection: &Rejection) -> HashMap<&str, &str> {
    rejection
        .headers
        .iter()
        .map(|(name, value)| (name.as_str(), value.as_str()))
        .collect()
}

#[test]
fn from_config_rejects_invalid_configuration() {
    let Err(error) = TokenCeilingFilter::from_config(parse("window: 1h\n")) else {
        panic!("a config without ceilings must be rejected")
    };
    assert!(error.to_string().contains("token_ceiling:"), "got: {error}");
    assert_eq!(
        error,
        "token_ceiling: configure at least one entry in ceilings, or default_ceiling"
    );
}

#[test]
fn keyless_requests_pass_untracked_by_default() {
    let mut ceiling_filter = concrete("window: 1h\ndefault_ceiling: 10\n");
    assert!(matches!(ceiling_filter.decide(None, 0), RequestDecision::Untracked));
}

#[test]
fn keyless_requests_are_rejected_under_reject_policy() {
    let mut ceiling_filter = concrete("window: 1h\nmissing_key: reject\ndefault_ceiling: 10\n");
    let denied = rejection(ceiling_filter.decide(None, 0));
    assert_eq!(denied.status, 403);
}

#[test]
fn unlisted_keys_pass_untracked_without_a_default_ceiling() {
    let mut ceiling_filter = concrete("window: 1h\nceilings:\n  alice: 10\n");
    assert!(matches!(
        ceiling_filter.decide(Some("bob".to_owned()), 0),
        RequestDecision::Untracked
    ));
}

#[test]
fn admitted_requests_are_tracked_under_their_key() {
    let mut ceiling_filter = concrete("window: 1h\nceilings:\n  alice: 10\n");
    match ceiling_filter.decide(Some("alice".to_owned()), 0) {
        RequestDecision::TrackedUnder(key) => assert_eq!(key, "alice"),
        other => panic!("expected TrackedUnder, got {other:?}"),
    }
}

#[test]
fn exhausted_ceiling_yields_429_with_rate_limit_headers() {
    let mut ceiling_filter = concrete("window: 1m\nceilings:\n  alice: 100\n");
    ceiling_filter.settle("alice", Some("100"), 0);
    let denied = rejection(ceiling_filter.decide(Some("alice".to_owned()), 30_000));
    assert_eq!(denied.status, 429);
    let headers = headers_of(&denied);
    assert_eq!(headers["Retry-After"], "30");
    assert_eq!(headers["X-RateLimit-Limit-Tokens"], "100");
    assert_eq!(headers["X-RateLimit-Remaining-Tokens"], "0");
    assert_eq!(headers["X-RateLimit-Reset-Tokens"], "30");
}

#[test]
fn settle_ignores_missing_and_malformed_totals() {
    let mut ceiling_filter = concrete("window: 1h\nceilings:\n  alice: 10\n");
    ceiling_filter.settle("alice", None, 0);
    ceiling_filter.settle("alice", Some("not-a-number"), 0);
    assert!(matches!(
        ceiling_filter.decide(Some("alice".to_owned()), 1),
        RequestDecision::TrackedUnder(_)
    ));
}

#[test]
fn a_new_window_admits_an_exhausted_key_again() {
    let mut ceiling_filter = concrete("window: 1m\nceilings:\n  alice: 10\n");
    ceiling_filter.settle("alice", Some("10"), 0);
    assert!(matches!(
        ceiling_filter.decide(Some("alice".to_owned()), 0),
        RequestDecision::Rejected(_)
    ));
    assert!(matches!(
        ceiling_filter.decide(Some("alice".to_owned()), 60_000),
        RequestDecision::TrackedUnder(_)
    ));
}

#[test]
fn default_ceiling_applies_to_unlisted_keys() {
    let mut ceiling_filter = concrete("window: 1h\nceilings:\n  alice: 100\ndefault_ceiling: 10\n");
    ceiling_filter.settle("bob", Some("10"), 0);
    assert!(matches!(
        ceiling_filter.decide(Some("bob".to_owned()), 0),
        RequestDecision::Rejected(_)
    ));
    // alice's own, higher ceiling still applies.
    ceiling_filter.settle("alice", Some("10"), 0);
    assert!(matches!(
        ceiling_filter.decide(Some("alice".to_owned()), 0),
        RequestDecision::TrackedUnder(_)
    ));
}

#[test]
fn resolve_key_reads_the_configured_header_case_insensitively() {
    let mut headers = http::HeaderMap::new();
    headers.insert("X-App-Id", "  alpha  ".parse().expect("valid header value"));
    let source = KeySource::Header("x-app-id".to_owned());
    assert_eq!(
        resolve_key(&source, &headers, &OrderedMap::new()),
        Some("alpha".to_owned()),
        "header lookup must be case-insensitive and trimmed"
    );
    assert_eq!(
        resolve_key(&KeySource::Header("x-other".to_owned()), &headers, &OrderedMap::new()),
        None
    );
}

#[test]
fn resolve_key_reads_the_configured_metadata_key() {
    let headers = http::HeaderMap::new();
    let mut metadata: OrderedMap<String> = OrderedMap::new();
    metadata.insert("identity.user", "alice".to_owned());
    let source = KeySource::Metadata("identity.user".to_owned());
    assert_eq!(resolve_key(&source, &headers, &metadata), Some("alice".to_owned()));
    assert_eq!(
        resolve_key(&KeySource::Metadata("identity.group".to_owned()), &headers, &metadata),
        None
    );
}

#[test]
fn resolve_key_treats_empty_and_overlong_values_as_missing() {
    let headers = http::HeaderMap::new();
    let mut metadata: OrderedMap<String> = OrderedMap::new();
    metadata.insert("identity.user", "   ".to_owned());
    let source = KeySource::Metadata("identity.user".to_owned());
    assert_eq!(resolve_key(&source, &headers, &metadata), None, "blank is missing");
    metadata.insert("identity.user", "k".repeat(257));
    assert_eq!(resolve_key(&source, &headers, &metadata), None, "over-long is missing");
}

#[test]
fn ceiling_exceeded_rounds_retry_after_up_and_never_below_one() {
    let sub_second = rejection(RequestDecision::Rejected(ceiling_exceeded(10, 1)));
    let headers = headers_of(&sub_second);
    assert_eq!(headers["Retry-After"], "1", "sub-second waits round up to 1");
    let zero = rejection(RequestDecision::Rejected(ceiling_exceeded(10, 0)));
    assert_eq!(zero.headers[0].1, "1", "a zero wait still advises 1 second");
}

#[test]
fn missing_key_rejection_is_a_bare_403() {
    let denied = rejection(RequestDecision::Rejected(missing_key_rejection()));
    assert_eq!(denied.status, 403);
    assert!(denied.headers.is_empty());
    assert!(denied.body.is_none());
}

#[test]
fn stash_metadata_key_is_within_context_limits() {
    // Metadata silently drops keys over 64 bytes; the stash key must never be
    // one of them.
    assert!(META_CEILING_KEY.len() <= 64);
}

#[test]
fn retry_after_boundaries() {
    let seconds = |wait: u64| {
        let denied = rejection(RequestDecision::Rejected(ceiling_exceeded(10, wait)));
        denied.headers[0].1.clone()
    };
    assert_eq!(seconds(999), "1");
    assert_eq!(seconds(1_000), "1");
    assert_eq!(seconds(1_001), "2");
    assert_eq!(seconds(18_446_744_073_709_551_000), "18446744073709551");
    assert_eq!(seconds(18_446_744_073_709_551_001), "18446744073709552");
    assert_eq!(seconds(u64::MAX), "18446744073709552");
}

#[test]
fn a_rejection_takes_any_status() {
    assert_eq!(Rejection::status(0).status, 0);
    assert_eq!(Rejection::status(999).status, 999);
}

#[test]
fn the_longest_wait_is_announced_in_full() {
    let mut ceiling_filter =
        concrete("window: 18446744073709551615ms\nceilings:\n  alice: 10\n");
    ceiling_filter.settle("alice", Some("10"), 0);
    let denied = rejection(ceiling_filter.decide(Some("alice".to_owned()), 0));
    assert_eq!(headers_of(&denied)["Retry-After"], "18446744073709552");
    assert_eq!(headers_of(&denied)["X-RateLimit-Reset-Tokens"], "18446744073709552");
    let last = rejection(ceiling_filter.decide(Some("alice".to_owned()), u64::MAX - 1));
    assert_eq!(headers_of(&last)["Retry-After"], "1");
    assert!(matches!(
        ceiling_filter.decide(Some("alice".to_owned()), u64::MAX),
        RequestDecision::TrackedUnder(_)
    ));
}

#[test]
fn a_spent_key_gets_429_whatever_comes_until_the_reset() {
    let mut ceiling_filter = concrete("window: 1m\nceilings:\n  alice: 10\n  bob: 5\n");
    let status = |decision: RequestDecision| match decision {
        RequestDecision::Rejected(FilterAction::Reject(rejection)) => rejection.status,
        _ => 200,
    };
    let alice = || Some("alice".to_owned());
    assert_eq!(status(ceiling_filter.decide(alice(), 0)), 200);
    ceiling_filter.settle("alice", Some("4"), 1_000);
    assert_eq!(status(ceiling_filter.decide(alice(), 2_000)), 200);
    assert_eq!(status(ceiling_filter.decide(Some("bob".to_owned()), 2_500)), 200);
    ceiling_filter.settle("bob", Some("5"), 3_000);
    assert_eq!(status(ceiling_filter.decide(None, 3_500)), 200);
    ceiling_filter.settle("alice", Some("6"), 4_000);
    assert_eq!(status(ceiling_filter.decide(alice(), 5_000)), 429);
    ceiling_filter.settle("alice", Some("100"), 6_000);
    assert_eq!(status(ceiling_filter.decide(Some("bob".to_owned()), 7_000)), 429);
    let denied = rejection(ceiling_filter.decide(alice(), 60_999));
    assert_eq!(headers_of(&denied)["Retry-After"], "1");
    assert_eq!(status(ceiling_filter.decide(alice(), 61_000)), 200);
}

#[test]
fn a_response_is_charged_at_most_once() {
    let mut ceiling_filter = concrete("window: 1m\ndefault_ceiling: 10\n");
    let mut stash = Some("alice".to_owned());
    let mut charges = 0;
    for (end_of_stream, now_ms) in [(false, 0), (false, 1), (true, 2), (true, 3), (false, 4)] {
        let outcome = ceiling_filter.on_response_body(
            end_of_stream,
            stash.as_deref(),
            Some("6"),
            now_ms,
        );
        if outcome.charge.is_some() {
            charges += 1;
        }
        if outcome.clear_stash {
            stash = None;
        }
    }
    assert_eq!(charges, 1);
    // Six of ten tokens are spent, not twelve.
    assert!(matches!(
        ceiling_filter.decide(Some("alice".to_owned()), 5),
        RequestDecision::TrackedUnder(_)
    ));
}

#[test]
fn key_sources_do_not_mix() {
    let mut headers = http::HeaderMap::new();
    headers.insert("identity.user", "mallory".parse().expect("valid header value"));
    let mut metadata: OrderedMap<String> = OrderedMap::new();
    let from_metadata = KeySource::Metadata("identity.user".to_owned());
    assert_eq!(resolve_key(&from_metadata, &headers, &metadata), None);
    metadata.insert("identity.user", "alice".to_owned());
    assert_eq!(resolve_key(&from_metadata, &headers, &metadata), Some("alice".to_owned()));
    let from_header = KeySource::Header("identity.user".to_owned());
    assert_eq!(resolve_key(&from_header, &headers, &metadata), Some("mallory".to_owned()));
}

#[test]
fn the_metadata_entry_to_read_is_named() {
    assert_eq!(
        concrete("window: 1h\ndefault_ceiling: 10\n").metadata_name(),
        Some("identity.user")
    );
    assert_eq!(
        concrete("window: 1h\nkey:\n  metadata: team\ndefault_ceiling: 10\n").metadata_name(),
        Some("team")
    );
    assert_eq!(
        concrete("window: 1h\nkey:\n  header: x-app-id\ndefault_ceiling: 10\n").metadata_name(),
        None
    );
}

#[test]
fn a_rejected_request_names_its_key() {
    let mut ceiling_filter = concrete("window: 1h\ndefault_ceiling: 10\n");
    let headers = http::HeaderMap::new();
    let mut metadata: OrderedMap<String> = OrderedMap::new();
    assert_eq!(ceiling_filter.on_request(&headers, &metadata, 0).key, None);
    metadata.insert("identity.user", " alice ".to_owned());
    ceiling_filter.settle("alice", Some("10"), 0);
    let denied = ceiling_filter.on_request(&headers, &metadata, 0);
    assert_eq!(denied.key.as_deref(), Some("alice"));
    assert!(denied.stash.is_none());
    assert!(matches!(denied.action, FilterAction::Reject(_)));
}

#[test]
fn rejection_headers_keep_their_order() {
    let denied = rejection(RequestDecision::Rejected(ceiling_exceeded(u64::MAX, 61_500)));
    assert_eq!(
        denied.headers,
        vec![
            ("Retry-After".to_owned(), "62".to_owned()),
            ("X-RateLimit-Limit-Tokens".to_owned(), "18446744073709551615".to_owned()),
            ("X-RateLimit-Remaining-Tokens".to_owned(), "0".to_owned()),
            ("X-RateLimit-Reset-Tokens".to_owned(), "62".to_owned()),
        ]
    );
    assert!(denied.body.is_none());
}

#[test]
fn decimal_writes_what_the_standard_library_writes() {
    for number in [0, 1, 9, 10, 99, 100, 1_000_000_007, u64::MAX] {
        assert_eq!(decimal(number), number.to_string());
    }
}

#[test]
fn waiting_for_the_announced_seconds_suffices() {
    let mut ceiling_filter = concrete("window: 1500ms\nceilings:\n  alice: 10\n");
    ceiling_filter.settle("alice", Some("10"), 100);
    let denied = rejection(ceiling_filter.decide(Some("alice".to_owned()), 200));
    let wait: u64 = headers_of(&denied)["Retry-After"].parse().unwrap();
    assert_eq!(wait, 2);
    assert!(matches!(
        ceiling_filter.decide(Some("alice".to_owned()), 200 + wait * 1_000),
        RequestDecision::TrackedUnder(_)
    ));
}

#[test]
fn settle_reports_what_it_did() {
    let mut ceiling_filter = concrete("window: 1h\ndefault_ceiling: 10\n");
    assert_eq!(ceiling_filter.settle("alice", None, 0), None);
    assert_eq!(ceiling_filter.settle("alice", Some(" 5"), 0), None);
    assert_eq!(ceiling_filter.settle("alice", Some("5"), 0), Some(Charge::Recorded));
    assert_eq!(ceiling_filter.settle("alice", Some("+5"), 0), Some(Charge::Recorded));
    assert!(matches!(
        ceiling_filter.decide(Some("alice".to_owned()), 0),
        RequestDecision::Rejected(_)
    ));
}

#[test]
fn new_keys_fail_closed_when_the_ledger_is_full() {
    let mut ceiling_filter = concrete("window: 1h\ndefault_ceiling: 10\n");
    for number in 0..MAX_TRACKED_KEYS {
        let key = format!("key-{number}");
        assert_eq!(ceiling_filter.settle(&key, Some("1"), 0), Some(Charge::Recorded));
    }
    assert_eq!(ceiling_filter.settle("late", Some("1"), 1), Some(Charge::Dropped));
    let denied = rejection(ceiling_filter.decide(Some("late".to_owned()), 1));
    assert_eq!(denied.status, 503);
    assert!(denied.headers.is_empty());
    // Known keys keep working.
    assert!(matches!(
        ceiling_filter.decide(Some("key-17".to_owned()), 1),
        RequestDecision::TrackedUnder(_)
    ));
    // Once the windows have elapsed there is room again.
    assert!(matches!(
        ceiling_filter.decide(Some("late".to_owned()), 3_600_000),
        RequestDecision::TrackedUnder(_)
    ));
}

#[test]
fn a_request_is_charged_at_the_end_of_its_response() {
    let mut ceiling_filter =
        concrete("window: 1m\nkey:\n  header: X-App-Id\nceilings:\n  alpha: 10\n");
    let mut headers = http::HeaderMap::new();
    headers.insert("x-app-id", " alpha".parse().expect("valid header value"));
    let metadata: OrderedMap<String> = OrderedMap::new();
    let admitted = ceiling_filter.on_request(&headers, &metadata, 0);
    assert!(matches!(admitted.action, FilterAction::Continue));
    assert_eq!(admitted.stash.as_deref(), Some("alpha"));
    // Nothing is charged before the end of the stream, nor without a stash.
    let midway = ceiling_filter.on_response_body(false, Some("alpha"), Some("10"), 1);
    assert_eq!(midway.charge, None);
    assert!(!midway.clear_stash);
    let keyless = ceiling_filter.on_response_body(true, None, Some("10"), 1);
    assert_eq!(keyless.charge, None);
    assert!(!keyless.clear_stash);
    let again = ceiling_filter.on_request(&headers, &metadata, 1);
    assert!(matches!(again.action, FilterAction::Continue));
    let done = ceiling_filter.on_response_body(true, Some("alpha"), Some("10"), 2);
    assert!(matches!(done.action, FilterAction::Continue));
    assert_eq!(done.charge, Some(Charge::Recorded));
    assert!(done.clear_stash);
    let denied = ceiling_filter.on_request(&headers, &metadata, 3);
    assert!(denied.stash.is_none());
    match denied.action {
        FilterAction::Reject(rejection) => assert_eq!(rejection.status, 429),
        FilterAction::Continue => panic!("expected a rejection"),
    }
}

#[test]
fn a_stash_is_cleared_even_when_nothing_is_charged() {
    let mut ceiling_filter = concrete("window: 1h\ndefault_ceiling: 10\n");
    let done = ceiling_filter.on_response_body(true, Some("alice"), None, 0);
    assert_eq!(done.charge, None);
    assert!(done.clear_stash);
}

#[test]
fn decisions_are_carried_out() {
    let untracked = carry_out(RequestDecision::Untracked, None);
    assert!(matches!(untracked.action, FilterAction::Continue));
    assert!(untracked.stash.is_none());
    let admitted = carry_out(
        RequestDecision::TrackedUnder("alice".to_owned()),
        Some("alice".to_owned()),
    );
    assert!(matches!(admitted.action, FilterAction::Continue));
    assert_eq!(admitted.stash.as_deref(), Some("alice"));
    assert_eq!(admitted.key.as_deref(), Some("alice"));
    let rejected = carry_out(RequestDecision::Rejected(missing_key_rejection()), None);
    assert!(matches!(rejected.action, FilterAction::Reject(_)));
    assert!(rejected.stash.is_none());
}

#[test]
fn ceilings_come_from_the_list_then_the_default() {
    let ceiling_filter = concrete("window: 1h\nceilings:\n  alice: 100\ndefault_ceiling: 10\n");
    assert_eq!(ceiling_filter.ceiling_for("alice"), Some(100));
    assert_eq!(ceiling_filter.ceiling_for("bob"), Some(10));
    let uncapped = concrete("window: 1h\nceilings:\n  alice: 100\n");
    assert_eq!(uncapped.ceiling_for("bob"), None);
}

#[test]
fn keys_are_trimmed_and_measured_in_bytes() {
    assert_eq!(usable_key(Some("\u{2003}a b\t")), Some("a b".to_owned()));
    assert_eq!(usable_key(Some("\u{200b}")), Some("\u{200b}".to_owned()));
    assert_eq!(usable_key(Some(&"k".repeat(256))), Some("k".repeat(256)));
    assert_eq!(usable_key(Some(&"\u{e9}".repeat(129))), None);
    assert_eq!(usable_key(None), None);
}

#[test]
fn every_white_space_character_is_trimmed() {
    let spaces = "\u{9}\u{a}\u{b}\u{c}\u{d}\u{20}\u{85}\u{a0}\u{1680}\u{2000}\u{2001}\u{2002}\u{2003}\u{2004}\u{2005}\u{2006}\u{2007}\u{2008}\u{2009}\u{200a}\u{2028}\u{2029}\u{202f}\u{205f}\u{3000}";
    assert_eq!(usable_key(Some(spaces)), None);
    for code in 0..=0x0010_ffff_u32 {
        if let Some(c) = char::from_u32(code) {
            assert_eq!(usable_key(Some(&c.to_string())).is_none(), spaces.contains(c), "{code:x}");
        }
    }
}

#[test]
fn headers_are_read_as_visible_text() {
    let mut headers = http::HeaderMap::new();
    headers.append("x-key", "first".parse().expect("valid header value"));
    headers.append("x-key", "second".parse().expect("valid header value"));
    headers.insert(
        "x-opaque",
        http::HeaderValue::from_bytes(b"caf\xc3\xa9").expect("valid header value"),
    );
    assert_eq!(read_header(&headers, "X-KEY"), Some("first"));
    assert_eq!(read_header(&headers, "x-opaque"), None);
    assert_eq!(read_header(&headers, "x key"), None);
    assert_eq!(read_header(&headers, ""), None);
}

#[test]
fn elapsed_time_saturates() {
    assert_eq!(saturate_millis(0), 0);
    assert_eq!(saturate_millis(u128::from(u64::MAX)), u64::MAX);
    assert_eq!(saturate_millis(u128::from(u64::MAX) + 1), u64::MAX);
}

#[test]
fn the_clock_starts_when_the_filter_is_built() {
    let ceiling_filter = concrete("window: 1h\ndefault_ceiling: 10\n");
    let early = ceiling_filter.now_ms();
    assert!(early < 60_000);
    let started = std::time::Instant::now();
    while started.elapsed().as_millis() <= 20 {}
    let late = ceiling_filter.now_ms();
    assert!(late >= early + 20);
}

#[test]
fn totals_are_reported_under_a_fixed_name() {
    assert_eq!(META_TOKEN_TOTAL, "token.total");
    assert_eq!(META_CEILING_KEY, "token_ceiling.key");
}
