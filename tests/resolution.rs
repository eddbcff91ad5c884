use std::cmp::Ordering::{Equal, Greater, Less};
use jetbrains_plugins::ides::{IdeProduct, IdeVersion};
use jetbrains_plugins::resolve::{
    bounds_admit, release_admits, resolve_ides, supported_version, widen_wildcards, PluginDetails,
    PluginDetailsCategory, PluginDetailsIdeaPlugin, PluginDetailsIdeaVersion,
};

fn release(version: &str, since: Option<&str>, until: Option<&str>) -> PluginDetailsIdeaPlugin {
    PluginDetailsIdeaPlugin {
        version: version.to_string(),
        idea_version: PluginDetailsIdeaVersion {
            since_build: since.map(str::to_string),
            until_build: until.map(str::to_string),
        },
    }
}

fn ide(build: &str) -> IdeVersion {
    IdeVersion {
        ide: IdeProduct::IntelliJIdea,
        version: "2025.1".to_string(),
        build_number: build.to_string(),
    }
}

#[test]
fn first_admissible_release_wins() {
    let releases = vec![
        release("3.0", Some("260.0"), None),
        release("2.0", Some("240.0"), None),
        release("1.0", Some("230.0"), None),
    ];
    assert_eq!(supported_version(&ide("251.100"), &releases), Some(1));
}

#[test]
fn reordering_changes_the_choice() {
    let releases = vec![release("1.0", Some("230.0"), None), release("2.0", Some("240.0"), None)];
    let first = supported_version(&ide("251.100"), &releases).unwrap();
    assert_eq!(releases[first].version, "1.0");
    let reordered = vec![release("2.0", Some("240.0"), None), release("1.0", Some("230.0"), None)];
    let second = supported_version(&ide("251.100"), &reordered).unwrap();
    assert_eq!(reordered[second].version, "2.0");
}

#[test]
fn no_admissible_release() {
    let releases = vec![release("1.0", Some("260.0"), None), release("0.9", None, Some("240.*"))];
    assert_eq!(supported_version(&ide("251.100"), &releases), None);
    assert_eq!(supported_version(&ide("251.100"), &vec![]), None);
}

#[test]
fn unbounded_release_admits_all() {
    let releases = vec![release("1.0", None, None)];
    assert_eq!(supported_version(&ide("1.0"), &releases), Some(0));
}

#[test]
fn since_wildcard_is_lowest() {
    let rel = release("1.0", Some("231.*"), None);
    assert!(release_admits("231.0", &rel));
    assert!(release_admits("231.5", &rel));
    assert!(release_admits("232.1", &rel));
    assert!(!release_admits("230.9999", &rel));
}

#[test]
fn until_wildcard_is_highest() {
    let rel = release("1.0", None, Some("231.*"));
    assert!(release_admits("231.99999999", &rel));
    assert!(release_admits("231.0", &rel));
    assert!(release_admits("230.5", &rel));
    assert!(!release_admits("232.0", &rel));
}

#[test]
fn bounds_are_inclusive() {
    let rel = release("1.0", Some("231.10"), Some("231.20"));
    assert!(release_admits("231.10", &rel));
    assert!(release_admits("231.20", &rel));
    assert!(!release_admits("231.9", &rel));
    assert!(!release_admits("231.21", &rel));
}

#[test]
fn build_segments_compare_numerically() {
    let rel = release("1.0", Some("231.9"), None);
    assert!(release_admits("231.10", &rel));
}

#[test]
fn unreadable_bound_admits_nothing() {
    let rel = release("1.0", Some("abc"), None);
    assert!(!release_admits("231.0", &rel));
}

#[test]
fn widen_replaces_each_wildcard() {
    assert_eq!(widen_wildcards("231.*", "0"), "231.0");
    assert_eq!(widen_wildcards("231.*", "99999999"), "231.99999999");
    assert_eq!(widen_wildcards("1.*.*", "0"), "1.0.0");
    assert_eq!(widen_wildcards("231.5", "0"), "231.5");
    assert_eq!(widen_wildcards("", "0"), "");
}

#[test]
fn resolve_each_ide() {
    let releases = vec![release("2.0", Some("250.0"), None), release("1.0", Some("200.0"), Some("250.*"))];
    let ides = vec![ide("251.100"), ide("243.5"), ide("199.1")];
    assert_eq!(resolve_ides(&ides, &releases), vec![Some(0), Some(1), None]);
}

#[test]
fn details_without_category_have_no_releases() {
    let none = PluginDetails { category: None };
    assert!(none.releases().is_none());
    let some = PluginDetails {
        category: Some(PluginDetailsCategory { idea_plugin: vec![release("1.0", None, None)] }),
    };
    assert_eq!(some.releases().map(|v| v.len()), Some(1));
}

#[test]
fn bounds_from_comparisons() {
    assert!(bounds_admit(None, None));
    assert!(bounds_admit(Some(Some(Equal)), Some(Some(Equal))));
    assert!(bounds_admit(Some(Some(Greater)), Some(Some(Less))));
    assert!(!bounds_admit(Some(Some(Less)), None));
    assert!(!bounds_admit(None, Some(Some(Greater))));
    assert!(!bounds_admit(Some(None), None));
    assert!(!bounds_admit(None, Some(None)));
}
