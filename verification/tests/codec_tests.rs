use channel_store::codec::{channel_from_json, channel_to_json, BalanceApi, ChannelConfig, Permissions};
use channel_store::store::{build_channel, encode_channel};
use channel_store::text::parse_json;

fn sample_channel() -> ChannelConfig {
    ChannelConfig {
        env: vec![
            ("ANTHROPIC_AUTH_TOKEN".to_string(), "tok-1".to_string()),
            ("CLAUDE_CODE_DISABLE_NONESSENTIAL_TRAFFIC".to_string(), "1".to_string()),
        ],
        permissions: Permissions { allow: vec!["Read".to_string()], deny: vec![] },
        model: Some("opus".to_string()),
        always_thinking_enabled: true,
        mtime: Some(1700000000000),
        balance_api: Some(BalanceApi {
            url: Some("https://api.example.com/balance".to_string()),
            method: Some("POST".to_string()),
            field: None,
        }),
    }
}

fn assert_channels_equal_except_mtime(a: &ChannelConfig, b: &ChannelConfig) {
    assert_eq!(a.env, b.env);
    assert_eq!(a.permissions.allow, b.permissions.allow);
    assert_eq!(a.permissions.deny, b.permissions.deny);
    assert_eq!(a.model, b.model);
    assert_eq!(a.always_thinking_enabled, b.always_thinking_enabled);
    match (&a.balance_api, &b.balance_api) {
        (None, None) => {}
        (Some(x), Some(y)) => {
            assert_eq!(x.url, y.url);
            assert_eq!(x.method, y.method);
            assert_eq!(x.field, y.field);
        }
        _ => panic!("balance descriptors differ"),
    }
}

#[test]
fn encode_then_decode_is_lossless_except_mtime() {
    let c = sample_channel();
    let text = encode_channel(&c);
    assert!(!text.contains("mtime"), "a freshly written payload never carries mtime");
    let parsed = parse_json(&text).expect("encoded text must parse");
    let back = channel_from_json(&parsed).expect("encoded text must decode");
    assert_channels_equal_except_mtime(&c, &back);
    assert_eq!(back.mtime, None);
}

#[test]
fn decode_tolerates_unknown_members() {
    let text = "{\"env\": {\"A\": \"1\"}, \"permissions\": {\"allow\": [], \"deny\": []}, \
                \"alwaysThinkingEnabled\": false, \"theme\": \"dark\", \"extra\": [1, 2]}";
    let parsed = parse_json(text).unwrap();
    let c = channel_from_json(&parsed).expect("unknown members are ignored");
    assert_eq!(c.env, vec![("A".to_string(), "1".to_string())]);
    assert!(!c.always_thinking_enabled);
    assert_eq!(c.model, None);
    assert!(c.balance_api.is_none());
}

#[test]
fn decode_reads_optional_members() {
    let text = "{\"env\": {}, \"permissions\": {\"allow\": [\"a\"], \"deny\": [\"b\"]}, \
                \"alwaysThinkingEnabled\": true, \"model\": \"m\", \"mtime\": -42, \
                \"balanceApi\": {\"url\": \"u\", \"field\": \"f\"}}";
    let c = channel_from_json(&parse_json(text).unwrap()).unwrap();
    assert_eq!(c.model.as_deref(), Some("m"));
    assert_eq!(c.mtime, Some(-42));
    let b = c.balance_api.unwrap();
    assert_eq!(b.url.as_deref(), Some("u"));
    assert_eq!(b.method, None);
    assert_eq!(b.field.as_deref(), Some("f"));
    assert_eq!(c.permissions.allow, vec!["a".to_string()]);
    assert_eq!(c.permissions.deny, vec!["b".to_string()]);
}

#[test]
fn decode_rejects_missing_or_misshapen_members() {
    let missing_env = "{\"permissions\": {\"allow\": [], \"deny\": []}, \"alwaysThinkingEnabled\": true}";
    assert!(channel_from_json(&parse_json(missing_env).unwrap()).is_none());
    let missing_think = "{\"env\": {}, \"permissions\": {\"allow\": [], \"deny\": []}}";
    assert!(channel_from_json(&parse_json(missing_think).unwrap()).is_none());
    let env_not_strings = "{\"env\": {\"A\": 1}, \"permissions\": {\"allow\": [], \"deny\": []}, \
                           \"alwaysThinkingEnabled\": true}";
    assert!(channel_from_json(&parse_json(env_not_strings).unwrap()).is_none());
    let mtime_not_integer = "{\"env\": {}, \"permissions\": {\"allow\": [], \"deny\": []}, \
                             \"alwaysThinkingEnabled\": true, \"mtime\": 1.5}";
    assert!(channel_from_json(&parse_json(mtime_not_integer).unwrap()).is_none());
    assert!(channel_from_json(&parse_json("[1]").unwrap()).is_none());
}

#[test]
fn decode_reads_mtime_at_the_integer_bounds() {
    let shell = |m: &str| {
        format!(
            "{{\"env\": {{}}, \"permissions\": {{\"allow\": [], \"deny\": []}}, \
             \"alwaysThinkingEnabled\": true, \"mtime\": {}}}",
            m
        )
    };
    let max = channel_from_json(&parse_json(&shell("9223372036854775807")).unwrap()).unwrap();
    assert_eq!(max.mtime, Some(i64::MAX));
    let min = channel_from_json(&parse_json(&shell("-9223372036854775808")).unwrap()).unwrap();
    assert_eq!(min.mtime, Some(i64::MIN));
    assert!(
        channel_from_json(&parse_json(&shell("9223372036854775808")).unwrap()).is_none(),
        "a value past the integer range fails the read"
    );
    assert!(
        channel_from_json(&parse_json(&shell("92233720368547758079")).unwrap()).is_none(),
        "an overlong digit run fails the read"
    );
    assert!(
        channel_from_json(&parse_json(&shell("1e3")).unwrap()).is_none(),
        "an exponent is not an integer"
    );
    let null_mtime = channel_from_json(&parse_json(&shell("null")).unwrap()).unwrap();
    assert_eq!(null_mtime.mtime, None);
}

#[test]
fn encode_writes_members_in_order() {
    let c = ChannelConfig {
        env: vec![("A".to_string(), "1".to_string())],
        permissions: Permissions { allow: vec![], deny: vec![] },
        model: None,
        always_thinking_enabled: true,
        mtime: Some(7),
        balance_api: None,
    };
    let expected = "{\n  \"env\": {\n    \"A\": \"1\"\n  },\n  \"permissions\": {\n    \"allow\": [],\n    \"deny\": []\n  },\n  \"alwaysThinkingEnabled\": true\n}";
    assert_eq!(encode_channel(&c), expected);
}

#[test]
fn build_channel_fills_the_environment() {
    let c = build_channel(
        "T".to_string(),
        "".to_string(),
        "".to_string(),
        "https://b".to_string(),
        "".to_string(),
        "".to_string(),
    );
    assert_eq!(
        c.env,
        vec![
            ("ANTHROPIC_AUTH_TOKEN".to_string(), "T".to_string()),
            ("CLAUDE_CODE_DISABLE_NONESSENTIAL_TRAFFIC".to_string(), "1".to_string()),
        ]
    );
    assert_eq!(c.model, None);
    assert!(c.always_thinking_enabled);
    assert_eq!(c.mtime, None);
    let b = c.balance_api.unwrap();
    assert_eq!(b.method.as_deref(), Some("POST"), "a blank method defaults to POST");
    assert_eq!(b.field, None, "a blank field is omitted");

    let with_url = build_channel(
        "T".to_string(),
        "https://u".to_string(),
        "m".to_string(),
        "".to_string(),
        "GET".to_string(),
        "x".to_string(),
    );
    assert_eq!(with_url.env.len(), 3);
    assert_eq!(
        with_url.env[2],
        ("ANTHROPIC_BASE_URL".to_string(), "https://u".to_string())
    );
    assert_eq!(with_url.model.as_deref(), Some("m"));
    assert!(with_url.balance_api.is_none(), "no balance URL means no descriptor");
}

#[test]
fn round_trip_through_json_value() {
    let c = sample_channel();
    let j = channel_to_json(&c);
    let back = channel_from_json(&j).unwrap();
    assert_channels_equal_except_mtime(&c, &back);
    assert_eq!(back.mtime, None);
}
