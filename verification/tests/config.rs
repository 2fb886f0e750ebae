use token_ceiling::config::{
    parse_duration_ms, resolve_key_source, scale_window, validate, validate_ceiling_entry,
    validate_header_name, KeySource, KeySourceConfig, MissingKeyPolicy, TokenCeilingConfig,
};
use token_ceiling::ordered_map::OrderedMap;

/// The text at `name` in a YAML block.
fn text_at(block: Option<&serde_yaml::Value>, name: &str) -> Option<String> {
    block
        .and_then(|block| block.get(name))
        .and_then(|value| value.as_str())
        .map(|text| text.to_owned())
}

/// Reads YAML into a config, panicking on anything it cannot hold.
fn parse(yaml: &str) -> TokenCeilingConfig {
    let value: serde_yaml::Value = serde_yaml::from_str(yaml).expect("test YAML should parse");
    let mut ceilings: OrderedMap<u64> = OrderedMap::new();
    if let Some(listed) = value.get("ceilings").and_then(|block| block.as_mapping()) {
        for (key, ceiling) in listed {
            ceilings.insert(
                key.as_str().expect("ceilings keys are text"),
                ceiling.as_u64().expect("ceilings are numbers"),
            );
        }
    }
    TokenCeilingConfig {
        window: text_at(Some(&value), "window").expect("window is required"),
        key: KeySourceConfig {
            metadata: text_at(value.get("key"), "metadata"),
            header: text_at(value.get("key"), "header"),
        },
        missing_key: match text_at(Some(&value), "missing_key").as_deref() {
            None | Some("allow") => MissingKeyPolicy::Allow,
            Some("reject") => MissingKeyPolicy::Reject,
            Some(other) => panic!("unknown policy {other}"),
        },
        ceilings,
        default_ceiling: value.get("default_ceiling").and_then(|ceiling| ceiling.as_u64()),
    }
}

#[test]
fn minimal_config_uses_identity_metadata_defaults() {
    let cfg = parse("window: 1h\nceilings:\n  alice: 1000\n");
    assert_eq!(cfg.missing_key, MissingKeyPolicy::Allow);
    assert_eq!(cfg.default_ceiling, None);
    let (window_ms, key_source) = validate(&cfg).unwrap();
    assert_eq!(window_ms, 3_600_000);
    assert_eq!(key_source, KeySource::Metadata("identity.user".to_owned()));
}

#[test]
fn header_key_source_and_reject_policy_parse() {
    let cfg = parse(
        "window: 30s\nkey:\n  header: x-app-id\nmissing_key: reject\nceilings:\n  alpha: 500\ndefault_ceiling: \
         100\n",
    );
    assert_eq!(cfg.missing_key, MissingKeyPolicy::Reject);
    assert_eq!(cfg.default_ceiling, Some(100));
    let (window_ms, key_source) = validate(&cfg).unwrap();
    assert_eq!(window_ms, 30_000);
    assert_eq!(key_source, KeySource::Header("x-app-id".to_owned()));
}

#[test]
fn metadata_key_source_parses_explicitly() {
    let cfg = parse("window: 1m\nkey:\n  metadata: identity.group\ndefault_ceiling: 9\n");
    let (window_ms, key_source) = validate(&cfg).unwrap();
    assert_eq!(window_ms, 60_000);
    assert_eq!(key_source, KeySource::Metadata("identity.group".to_owned()));
}

#[test]
fn over_specified_key_sources_are_rejected() {
    let both = parse("window: 1m\nkey:\n  metadata: identity.user\n  header: x-app-id\ndefault_ceiling: 9\n");
    assert!(validate(&both).unwrap_err().contains("exactly one"));
}

#[test]
fn an_empty_key_block_falls_back_to_the_default_source() {
    let empty_block = parse("window: 1m\nkey: {}\ndefault_ceiling: 9\n");
    let (_, key_source) = validate(&empty_block).unwrap();
    assert_eq!(key_source, KeySource::Metadata("identity.user".to_owned()));
}

#[test]
fn validate_rejects_a_configuration_without_ceilings() {
    let cfg = parse("window: 1h\n");
    let error = validate(&cfg).unwrap_err();
    assert!(error.contains("at least one"), "got: {error}");
}

#[test]
fn validate_rejects_zero_ceilings() {
    let zero_listed = parse("window: 1h\nceilings:\n  alice: 0\n");
    assert!(validate(&zero_listed).unwrap_err().contains("greater than zero"));
    let zero_default = parse("window: 1h\ndefault_ceiling: 0\n");
    assert!(validate(&zero_default).unwrap_err().contains("default_ceiling"));
}

#[test]
fn validate_rejects_empty_and_overlong_ceiling_keys() {
    let empty_key = parse("window: 1h\nceilings:\n  \"\": 10\n");
    assert!(validate(&empty_key).unwrap_err().contains("must not be empty"));
    let long_key = "k".repeat(257);
    let overlong_key = parse(&format!("window: 1h\nceilings:\n  {long_key}: 10\n"));
    assert!(validate(&overlong_key).unwrap_err().contains("exceeds"));
}

#[test]
fn validate_rejects_bad_key_sources() {
    let empty_metadata = parse("window: 1h\nkey:\n  metadata: \"\"\ndefault_ceiling: 5\n");
    assert!(validate(&empty_metadata).unwrap_err().contains("key.metadata"));
    let spaced_header = parse("window: 1h\nkey:\n  header: \"x app id\"\ndefault_ceiling: 5\n");
    assert!(validate(&spaced_header)
        .unwrap_err()
        .contains("not a valid header name"));
    let empty_header = parse("window: 1h\nkey:\n  header: \"\"\ndefault_ceiling: 5\n");
    assert!(validate(&empty_header).unwrap_err().contains("key.header"));
}

#[test]
fn validate_rejects_zero_and_malformed_windows() {
    let zero_window = parse("window: 0s\ndefault_ceiling: 5\n");
    assert!(validate(&zero_window).unwrap_err().contains("greater than zero"));
    for bad in ["", "1d", "h", "1.5h", "-1s", "1"] {
        let result = parse_duration_ms(bad);
        assert!(result.is_err(), "window '{bad}' should be rejected");
    }
}

#[test]
fn durations_parse_every_supported_unit() {
    assert_eq!(parse_duration_ms("250ms").unwrap(), 250);
    assert_eq!(parse_duration_ms("30s").unwrap(), 30_000);
    assert_eq!(parse_duration_ms("5m").unwrap(), 300_000);
    assert_eq!(parse_duration_ms(" 1h ").unwrap(), 3_600_000);
}

#[test]
fn duration_overflow_is_an_error_not_a_wrap() {
    let result = parse_duration_ms(&format!("{}h", u64::MAX));
    assert!(result.unwrap_err().contains("overflow"));
}

#[test]
fn window_messages_quote_the_trimmed_text() {
    assert_eq!(
        parse_duration_ms(" 1d ").unwrap_err(),
        "invalid window '1d': expected <number><ms|s|m|h>"
    );
    assert_eq!(
        parse_duration_ms("\u{3000}x s\u{a0}").unwrap_err(),
        "invalid window 'x s': invalid digit found in string"
    );
    assert_eq!(
        parse_duration_ms("h").unwrap_err(),
        "invalid window 'h': cannot parse integer from empty string"
    );
    assert_eq!(
        parse_duration_ms("18446744073709551616ms").unwrap_err(),
        "invalid window '18446744073709551616ms': number too large to fit in target type"
    );
    assert_eq!(
        parse_duration_ms("18446744073709551615s").unwrap_err(),
        "window '18446744073709551615s' overflows"
    );
    assert_eq!(parse_duration_ms("18446744073709551615ms").unwrap(), u64::MAX);
}

#[test]
fn window_numbers_may_be_signed_and_spaced() {
    assert_eq!(parse_duration_ms("+5 m").unwrap(), 300_000);
    assert_eq!(parse_duration_ms("007s").unwrap(), 7_000);
    assert!(parse_duration_ms("+s").is_err());
    assert!(parse_duration_ms("1_000ms").is_err());
    assert!(parse_duration_ms("5M").is_err());
}

#[test]
fn scaling_takes_the_parsed_count() {
    assert_eq!(scale_window("5m", Ok(5), 60_000).unwrap(), 300_000);
    assert_eq!(
        scale_window("xm", Err("no number".to_owned()), 60_000).unwrap_err(),
        "invalid window 'xm': no number"
    );
    assert_eq!(
        scale_window("9h", Ok(u64::MAX), 2).unwrap_err(),
        "window '9h' overflows"
    );
}

#[test]
fn ceiling_entry_messages_name_the_key() {
    assert_eq!(validate_ceiling_entry("alice", 1), Ok(()));
    assert_eq!(
        validate_ceiling_entry("", 0),
        Err("ceilings keys must not be empty".to_owned())
    );
    assert_eq!(
        validate_ceiling_entry("alice", 0),
        Err("ceiling for 'alice' must be greater than zero".to_owned())
    );
    let long_key = "k".repeat(257);
    assert_eq!(
        validate_ceiling_entry(&long_key, 0),
        Err(format!("ceilings key '{long_key}' exceeds 256 bytes"))
    );
    assert_eq!(validate_ceiling_entry(&"k".repeat(256), 1), Ok(()));
    // Length counts bytes, not characters.
    assert!(validate_ceiling_entry(&"\u{e9}".repeat(129), 1).is_err());
}

#[test]
fn header_names_are_tokens() {
    assert_eq!(validate_header_name("x-app-id"), Ok(()));
    assert_eq!(validate_header_name("!#$%&'*+-.^_`|~09azAZ"), Ok(()));
    assert_eq!(
        validate_header_name(""),
        Err("key.header must not be empty".to_owned())
    );
    for bad in ["x app", "a:b", "caf\u{e9}", "a\"b", "(a)", "a/b", "a\u{7f}"] {
        assert_eq!(
            validate_header_name(bad),
            Err(format!("key.header '{bad}' is not a valid header name"))
        );
    }
}

#[test]
fn key_source_messages_are_exact() {
    let both = KeySourceConfig {
        metadata: Some("a".to_owned()),
        header: Some("b".to_owned()),
    };
    assert_eq!(
        resolve_key_source(&both),
        Err("key: set exactly one of metadata or header".to_owned())
    );
    let empty = KeySourceConfig { metadata: Some(String::new()), header: None };
    assert_eq!(
        resolve_key_source(&empty),
        Err("key.metadata must not be empty".to_owned())
    );
    assert_eq!(
        resolve_key_source(&KeySourceConfig::default()),
        Ok(KeySource::Metadata("identity.user".to_owned()))
    );
}

#[test]
fn the_first_faulty_ceiling_in_key_order_is_reported() {
    let cfg = parse("window: 1h\nceilings:\n  zed: 0\n  amy: 0\n  bob: 5\n");
    assert_eq!(
        validate(&cfg).unwrap_err(),
        "ceiling for 'amy' must be greater than zero"
    );
}

#[test]
fn faults_are_reported_in_a_fixed_order() {
    let window_first = parse("window: 0s\n");
    assert_eq!(validate(&window_first).unwrap_err(), "window must be greater than zero");
    let ceilings_next = parse("window: 1s\nkey:\n  header: \"\"\n");
    assert_eq!(
        validate(&ceilings_next).unwrap_err(),
        "configure at least one entry in ceilings, or default_ceiling"
    );
    let listed_before_default = parse("window: 1s\nceilings:\n  a: 0\ndefault_ceiling: 0\n");
    assert_eq!(
        validate(&listed_before_default).unwrap_err(),
        "ceiling for 'a' must be greater than zero"
    );
    let default_before_key = parse("window: 1s\nkey:\n  header: \"\"\ndefault_ceiling: 0\n");
    assert_eq!(
        validate(&default_before_key).unwrap_err(),
        "default_ceiling must be greater than zero"
    );
}
