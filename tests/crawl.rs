use jetbrains_plugins::crawl::{
    details_url, download_url, hacks_for_details_key, keyable_id, RetryPolicy, BACKOFF_BASE_MS, RETRIES,
};

#[test]
fn details_key_exceptions() {
    assert_eq!(hacks_for_details_key("23.bytecode-disassembler"), Some("bytecode-disassembler"));
    assert_eq!(hacks_for_details_key("com.valord577.mybatis-navigator"), None);
    assert_eq!(hacks_for_details_key("io.github.kings1990.FastRequest"), None);
    assert_eq!(hacks_for_details_key("com.majera.intellij.codereview.gitlab"), None);
    assert_eq!(hacks_for_details_key("org.rust.lang"), Some("org.rust.lang"));
    assert_eq!(hacks_for_details_key("group/plugin"), Some("group/plugin"));
}

#[test]
fn ids_with_slash_are_not_keyable() {
    assert!(keyable_id("org.rust.lang"));
    assert!(!keyable_id("a/--/b"));
    assert!(!keyable_id("group/plugin"));
}

#[test]
fn endpoints() {
    assert_eq!(details_url("a.b"), "https://plugins.jetbrains.com/plugins/list?pluginId=a.b");
    assert_eq!(
        download_url("a.b", "1.0"),
        "https://plugins.jetbrains.com/plugin/download?pluginId=a.b&version=1.0"
    );
}

#[test]
fn plugin_task_backoff() {
    let policy = RetryPolicy::for_plugin_tasks();
    assert_eq!(BACKOFF_BASE_MS, 250);
    assert_eq!(RETRIES, 3);
    assert_eq!(policy.after_failure(1), Some(250));
    assert_eq!(policy.after_failure(2), Some(62_500));
    assert_eq!(policy.after_failure(3), Some(15_625_000));
    assert_eq!(policy.after_failure(4), None);
}

#[test]
fn backoff_saturates() {
    let policy = RetryPolicy::exponential(1 << 40, 3);
    assert_eq!(policy.after_failure(1), Some(1 << 40));
    assert_eq!(policy.after_failure(2), Some(u64::MAX));
    assert_eq!(policy.after_failure(3), Some(u64::MAX));
    let none = RetryPolicy::exponential(10, 0);
    assert_eq!(none.after_failure(1), None);
}
