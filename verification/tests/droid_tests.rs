use channel_store::droid::{
    delete_droid_channel, get_current_factory_api_key, get_droid_channels, render_key_file,
    save_droid_channel, switch_droid_channel, DroidChannel,
};
use channel_store::store::StoreError;

fn names(channels: &[DroidChannel]) -> Vec<&str> {
    channels.iter().map(|c| c.name.as_str()).collect()
}

#[test]
fn reads_lines_and_strips_the_legacy_marker() {
    let content = "alpha key-1\n\n  beta  key with spaces  [active]\nmalformed\n";
    let channels = get_droid_channels(content);
    assert_eq!(names(&channels), vec!["alpha", "beta"]);
    assert_eq!(channels[0].api_key, "key-1");
    assert_eq!(channels[1].api_key, "key with spaces");
}

#[test]
fn missing_file_reads_as_no_profiles() {
    assert!(get_droid_channels("").is_empty());
}

#[test]
fn create_inserts_at_the_head() {
    let existing = vec![DroidChannel { name: "a".to_string(), api_key: "k1".to_string() }];
    let updated = save_droid_channel(
        existing,
        "b".to_string(),
        "k2".to_string(),
        "".to_string(),
    )
    .unwrap();
    assert_eq!(names(&updated), vec!["b", "a"]);
}

fn clone_list(list: &[DroidChannel]) -> Vec<DroidChannel> {
    list.iter()
        .map(|c| DroidChannel { name: c.name.clone(), api_key: c.api_key.clone() })
        .collect()
}

#[test]
fn duplicate_create_fails_and_update_keeps_the_position() {
    // A first create takes the name.
    let one = save_droid_channel(vec![], "a".to_string(), "k1".to_string(), "".to_string())
        .unwrap();
    // A second create under the same name is refused.
    let clash = save_droid_channel(
        clone_list(&one),
        "a".to_string(),
        "k2".to_string(),
        "".to_string(),
    );
    assert!(matches!(clash, Err(StoreError::DuplicateName)));
    // An update that names itself as the old entry succeeds in place.
    let updated = save_droid_channel(one, "a".to_string(), "k2".to_string(), "a".to_string())
        .unwrap();
    assert_eq!(names(&updated), vec!["a"]);
    assert_eq!(updated[0].api_key, "k2");
}

#[test]
fn update_does_not_reorder() {
    let list = vec![
        DroidChannel { name: "x".to_string(), api_key: "1".to_string() },
        DroidChannel { name: "y".to_string(), api_key: "2".to_string() },
        DroidChannel { name: "z".to_string(), api_key: "3".to_string() },
    ];
    let updated = save_droid_channel(list, "y2".to_string(), "2b".to_string(), "y".to_string())
        .unwrap();
    assert_eq!(names(&updated), vec!["x", "y2", "z"]);
    assert_eq!(updated[1].api_key, "2b");
}

#[test]
fn rename_onto_a_taken_name_fails_and_a_missing_old_name_fails() {
    let list = vec![
        DroidChannel { name: "x".to_string(), api_key: "1".to_string() },
        DroidChannel { name: "y".to_string(), api_key: "2".to_string() },
    ];
    let clash = save_droid_channel(
        clone_list(&list),
        "y".to_string(),
        "k".to_string(),
        "x".to_string(),
    );
    assert!(matches!(clash, Err(StoreError::DuplicateName)));
    let missing = save_droid_channel(list, "w".to_string(), "k".to_string(), "gone".to_string());
    assert!(matches!(missing, Err(StoreError::NotFound)));
}

#[test]
fn render_writes_one_line_per_profile() {
    let list = vec![
        DroidChannel { name: "a".to_string(), api_key: "k 1".to_string() },
        DroidChannel { name: "b".to_string(), api_key: "k2".to_string() },
    ];
    assert_eq!(render_key_file(&list), "a k 1\nb k2");
    assert_eq!(render_key_file(&vec![]), "");
}

#[test]
fn rewritten_text_never_carries_the_marker() {
    let channels = get_droid_channels("a k1 [active]\nb k2");
    let text = render_key_file(&channels);
    assert_eq!(text, "a k1\nb k2");
    assert!(!text.contains("[active]"));
}

#[test]
fn delete_filters_the_named_lines_only() {
    let content = "a k1\nmalformed\nb k2\n\n";
    assert_eq!(delete_droid_channel(content, "a"), "malformed\nb k2");
    assert_eq!(
        delete_droid_channel(content, "zzz"),
        "a k1\nmalformed\nb k2",
        "deleting a missing name is a no-op beyond blank lines"
    );
}

#[test]
fn activation_is_an_explicit_instruction() {
    let r = switch_droid_channel("secret".to_string());
    assert_eq!(r.var_name, "FACTORY_API_KEY");
    assert_eq!(r.value, "secret");
}

#[test]
fn current_key_prefers_the_process_value() {
    assert_eq!(
        get_current_factory_api_key(Some("p".to_string()), Some("u".to_string())),
        "p"
    );
    assert_eq!(
        get_current_factory_api_key(Some("".to_string()), Some("u".to_string())),
        "u"
    );
    assert_eq!(get_current_factory_api_key(None, None), "");
    assert_eq!(get_current_factory_api_key(None, Some("".to_string())), "");
}
