use channel_store::store::{
    active_file_name, channel_file_name, channel_of_file, deleted_file_name, get_active_channel,
    read_channels, save_channel, switch_channel, ChannelSource, StoreError,
};
use channel_store::text::parse_json;
use channel_store::Json;

fn source(file_name: &str, content: &str, mtime_ms: Option<i64>) -> ChannelSource {
    ChannelSource {
        file_name: file_name.to_string(),
        content: content.to_string(),
        mtime_ms,
    }
}

fn good_payload() -> String {
    "{\"env\": {\"ANTHROPIC_AUTH_TOKEN\": \"T\"}, \"permissions\": {\"allow\": [], \"deny\": []}, \
     \"alwaysThinkingEnabled\": true}"
        .to_string()
}

#[test]
fn file_names_follow_the_layout() {
    assert_eq!(channel_file_name("work"), "settings-work.json");
    assert_eq!(deleted_file_name("work"), "settings-work.json.del");
    assert_eq!(active_file_name(), "settings.json");
    assert_eq!(channel_of_file("settings-work.json").as_deref(), Some("work"));
    assert_eq!(channel_of_file("settings-.json").as_deref(), Some(""));
    assert_eq!(channel_of_file("settings.json"), None);
    assert_eq!(channel_of_file("settings-work.json.del"), None);
    assert_eq!(channel_of_file("notes.txt"), None);
}

#[test]
fn listing_skips_the_corrupt_entry() {
    let entries = vec![
        source("settings-good.json", &good_payload(), Some(123)),
        source("settings-bad.json", "{not json", Some(456)),
    ];
    let listed = read_channels(entries);
    assert_eq!(listed.len(), 1, "exactly the well-formed entry survives");
    assert_eq!(listed[0].0, "good");
    assert_eq!(listed[0].1.mtime, Some(123), "mtime is stamped from file metadata");
}

#[test]
fn listing_ignores_foreign_entries_and_keeps_order() {
    let entries = vec![
        source("settings.json", &good_payload(), None),
        source("settings-b.json", &good_payload(), None),
        source("settings-a.json.del", &good_payload(), None),
        source("settings-a.json", &good_payload(), Some(1)),
    ];
    let listed = read_channels(entries);
    let names: Vec<&str> = listed.iter().map(|p| p.0.as_str()).collect();
    assert_eq!(names, vec!["b", "a"]);
    assert_eq!(listed[0].1.mtime, None, "no metadata read leaves the parsed mtime");
}

#[test]
fn save_plan_carries_payload_and_rename_cleanup() {
    let plan = save_channel(
        "work".to_string(),
        "T".to_string(),
        "".to_string(),
        "".to_string(),
        "old".to_string(),
        "".to_string(),
        "".to_string(),
        "".to_string(),
    );
    assert_eq!(plan.file_name, "settings-work.json");
    assert_eq!(plan.remove_first.as_deref(), Some("settings-old.json"));
    let listed = read_channels(vec![source(&plan.file_name, &plan.content, None)]);
    assert_eq!(listed.len(), 1);
    assert_eq!(listed[0].0, "work");
    let env = &listed[0].1.env;
    assert!(env.contains(&("ANTHROPIC_AUTH_TOKEN".to_string(), "T".to_string())));
    assert!(env.contains(&(
        "CLAUDE_CODE_DISABLE_NONESSENTIAL_TRAFFIC".to_string(),
        "1".to_string()
    )));
    assert!(
        env.iter().all(|p| p.0 != "ANTHROPIC_BASE_URL"),
        "an empty URL adds no base-URL entry"
    );
}

#[test]
fn save_plan_removes_nothing_without_a_rename() {
    let same = save_channel(
        "work".to_string(),
        "T".to_string(),
        "".to_string(),
        "".to_string(),
        "work".to_string(),
        "".to_string(),
        "".to_string(),
        "".to_string(),
    );
    assert_eq!(same.remove_first, None);
    let fresh = save_channel(
        "work".to_string(),
        "T".to_string(),
        "".to_string(),
        "".to_string(),
        "".to_string(),
        "".to_string(),
        "".to_string(),
        "".to_string(),
    );
    assert_eq!(fresh.remove_first, None);
}

#[test]
fn active_document_read_reports_parse_failures() {
    assert!(get_active_channel(&good_payload()).is_ok());
    assert!(matches!(
        get_active_channel("{broken"),
        Err(StoreError::ParseError)
    ));
    assert!(matches!(
        get_active_channel("{\"env\": {}}"),
        Err(StoreError::ParseError)
    ));
}

fn member<'a>(doc: &'a Json, key: &str) -> Option<&'a Json> {
    match doc {
        Json::Obj(members) => members.iter().find(|p| p.0 == key).map(|p| &p.1),
        _ => None,
    }
}

#[test]
fn switch_preserves_foreign_keys_and_replaces_env() {
    let target = "{\"env\": {\"ANTHROPIC_AUTH_TOKEN\": \"W\"}, \
                  \"permissions\": {\"allow\": [], \"deny\": []}, \
                  \"alwaysThinkingEnabled\": true}";
    let active = "{\"theme\": \"dark\", \"env\": {\"ANTHROPIC_AUTH_TOKEN\": \"OLD\"}, \
                  \"permissions\": {\"allow\": [], \"deny\": []}, \
                  \"alwaysThinkingEnabled\": true}";
    let merged = switch_channel(target, Some(active)).unwrap();
    let doc = parse_json(&merged).unwrap();
    match member(&doc, "theme") {
        Some(Json::Str(t)) => assert_eq!(t, "dark", "the foreign key is preserved verbatim"),
        _ => panic!("the foreign key is gone"),
    }
    match member(&doc, "env") {
        Some(Json::Obj(env)) => {
            assert_eq!(env.len(), 1);
            assert_eq!(env[0].0, "ANTHROPIC_AUTH_TOKEN");
            assert!(matches!(&env[0].1, Json::Str(v) if v == "W"));
        }
        _ => panic!("env was not replaced"),
    }
}

#[test]
fn switch_removes_balance_when_the_target_has_none() {
    let target = "{\"env\": {}}";
    let active = "{\"balanceApi\": {\"url\": \"u\"}, \"keep\": 1}";
    let merged = switch_channel(target, Some(active)).unwrap();
    let doc = parse_json(&merged).unwrap();
    assert!(member(&doc, "balanceApi").is_none(), "balanceApi is deleted by absence");
    assert!(member(&doc, "keep").is_some());
}

#[test]
fn switch_backfills_required_keys() {
    let merged = switch_channel("{\"env\": {\"A\": \"1\"}}", None).unwrap();
    let doc = parse_json(&merged).unwrap();
    assert!(member(&doc, "permissions").is_some());
    assert!(matches!(
        member(&doc, "alwaysThinkingEnabled"),
        Some(Json::Bool(true))
    ));
}

#[test]
fn switch_tolerates_a_corrupt_active_document() {
    let merged = switch_channel("{\"env\": {}}", Some("not json at all")).unwrap();
    let doc = parse_json(&merged).unwrap();
    assert!(member(&doc, "env").is_some());
}

#[test]
fn switch_rejects_a_target_that_is_no_object() {
    assert!(matches!(
        switch_channel("[1, 2]", None),
        Err(StoreError::ParseError)
    ));
    assert!(matches!(
        switch_channel("{oops", None),
        Err(StoreError::ParseError)
    ));
}
