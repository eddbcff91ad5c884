use jetbrains_plugins::db::{db_cleanup, PluginDb, PluginDbEntry, PluginVersion};
use jetbrains_plugins::ides::{IdeProduct, IdeVersion};
use jetbrains_plugins::resolve::{supported_version, PluginDetailsIdeaPlugin, PluginDetailsIdeaVersion};
use std::collections::BTreeMap;

fn entry(path: &str, hash: &str) -> PluginDbEntry {
    PluginDbEntry { path: path.to_string(), hash: hash.to_string() }
}

fn release_of(product: IdeProduct, version: &str) -> IdeVersion {
    IdeVersion { ide: product, version: version.to_string(), build_number: "251.100".to_string() }
}

fn key(name: &str, version: &str) -> PluginVersion {
    PluginVersion::new(name, version).unwrap()
}

#[test]
fn plugin_key_format() {
    assert_eq!(PluginVersion::new("plugin", "2.0").unwrap().as_str(), "plugin/--/2.0");
    assert!(PluginVersion::new("a/--/b", "c").is_none());
    assert!(PluginVersion::new("a/b", "1").is_none());
    assert_eq!(PluginVersion::new("a", "b/--/c").unwrap().as_str(), "a/--/b/--/c");
    assert_eq!(PluginVersion::from_key("a/--/b".to_string()).as_str(), "a/--/b");
}

#[test]
fn insert_twice_keeps_one_entry() {
    let mut db = PluginDb::new();
    let i = release_of(IdeProduct::GoLand, "2025.1");
    let e = entry("files/p.zip", "h1");
    db.insert(&i, "p", "1.0", &e);
    db.insert(&i, "p", "1.0", &e);
    assert_eq!(db.entry_list().len(), 1);
    assert_eq!(db.get(&key("p", "1.0")), Some(&e));
    assert_eq!(db.ide_tables().len(), 1);
    assert_eq!(db.ide_tables()[0].1.len(), 1);
    assert_eq!(db.chosen_version(&i, "p").map(String::as_str), Some("1.0"));
}

#[test]
fn first_entry_for_a_key_stays() {
    let mut db = PluginDb::new();
    let a = release_of(IdeProduct::GoLand, "2025.1");
    let b = release_of(IdeProduct::Rider, "2025.1");
    db.insert(&a, "p", "1.0", &entry("x", "h1"));
    db.insert(&b, "p", "1.0", &entry("y", "h2"));
    assert_eq!(db.get(&key("p", "1.0")), Some(&entry("x", "h1")));
    assert_eq!(db.chosen_version(&b, "p").map(String::as_str), Some("1.0"));
}

#[test]
fn later_choice_replaces_earlier() {
    let mut db = PluginDb::new();
    let a = release_of(IdeProduct::GoLand, "2025.1");
    db.insert(&a, "p", "1.0", &entry("x", "h1"));
    db.insert(&a, "p", "2.0", &entry("y", "h2"));
    assert_eq!(db.chosen_version(&a, "p").map(String::as_str), Some("2.0"));
    assert_eq!(db.entry_list().len(), 2);
    assert_eq!(db.ide_tables()[0].1.len(), 1);
}

#[test]
fn ide_identity_ignores_build_number() {
    let mut db = PluginDb::new();
    let a = release_of(IdeProduct::GoLand, "2025.1");
    let mut b = release_of(IdeProduct::GoLand, "2025.1");
    b.build_number = String::new();
    db.insert(&a, "p", "1.0", &entry("x", "h1"));
    db.insert(&b, "q", "1.0", &entry("y", "h2"));
    assert_eq!(db.ide_tables().len(), 1);
    assert!(a == b);
    assert_eq!(db.chosen_version(&a, "q").map(String::as_str), Some("1.0"));
}

#[test]
fn garbage_collection_keeps_referenced_entries() {
    let mut db = PluginDb::init(vec![
        (key("a", "1"), entry("pa", "ha")),
        (key("b", "1"), entry("pb", "hb")),
        (key("c", "1"), entry("pc", "hc")),
    ]);
    db.set_ide_table(release_of(IdeProduct::PyCharm, "2025.2"), vec![("a".to_string(), "1".to_string())]);
    db_cleanup(&mut db);
    assert_eq!(db.entry_list().len(), 1);
    assert_eq!(db.get(&key("a", "1")), Some(&entry("pa", "ha")));
    assert_eq!(db.get(&key("b", "1")), None);
    assert_eq!(db.get(&key("c", "1")), None);
    db_cleanup(&mut db);
    assert_eq!(db.entry_list().len(), 1);
    assert_eq!(db.get(&key("a", "1")), Some(&entry("pa", "ha")));
}

#[test]
fn garbage_collection_without_tables_empties() {
    let mut db = PluginDb::init(vec![(key("a", "1"), entry("pa", "ha"))]);
    db_cleanup(&mut db);
    assert!(db.entry_list().is_empty());
}

#[test]
fn init_later_pair_wins() {
    let db = PluginDb::init(vec![(key("a", "1"), entry("x", "1")), (key("a", "1"), entry("y", "2"))]);
    assert_eq!(db.entry_list().len(), 1);
    assert_eq!(db.get(&key("a", "1")), Some(&entry("y", "2")));
}

#[test]
fn set_ide_table_replaces_table() {
    let mut db = PluginDb::new();
    let i = release_of(IdeProduct::CLion, "2025.1");
    db.insert(&i, "p", "1.0", &entry("x", "h"));
    db.set_ide_table(i.clone(), vec![("q".to_string(), "2".to_string()), ("q".to_string(), "3".to_string())]);
    assert_eq!(db.chosen_version(&i, "p"), None);
    assert_eq!(db.chosen_version(&i, "q").map(String::as_str), Some("3"));
    assert_eq!(db.ide_tables()[0].1.len(), 1);
}

#[test]
fn serialized_database_round_trips() {
    let mut db = PluginDb::new();
    let a = release_of(IdeProduct::IntelliJIdea, "2025.1");
    let b = release_of(IdeProduct::RubyMine, "2024.3.2");
    db.insert(&a, "p", "1.0", &entry("files/p-1.zip", "hp"));
    db.insert(&b, "q", "2.0", &entry("files/q-2.jar", "hq"));
    db.insert(&b, "p", "1.0", &entry("files/p-1.zip", "hp"));

    let entries: BTreeMap<String, BTreeMap<String, String>> = db
        .entry_list()
        .iter()
        .map(|(k, v)| {
            let mut e = BTreeMap::new();
            e.insert("p".to_string(), v.path.clone());
            e.insert("h".to_string(), v.hash.clone());
            (k.as_str().to_string(), e)
        })
        .collect();
    let text = serde_json::to_string_pretty(&entries).unwrap();
    let mut files: Vec<(String, String)> = Vec::new();
    for (i, t) in db.ide_tables() {
        let m: BTreeMap<String, String> = t.iter().cloned().collect();
        files.push((i.to_json_filename(), serde_json::to_string_pretty(&m).unwrap()));
    }

    let back: BTreeMap<String, BTreeMap<String, String>> = serde_json::from_str(&text).unwrap();
    let mut loaded = PluginDb::init(
        back.into_iter()
            .map(|(k, v)| (PluginVersion::from_key(k), entry(&v["p"], &v["h"])))
            .collect(),
    );
    for (name, body) in files {
        let i = IdeVersion::from_json_filename(&name).unwrap();
        let m: BTreeMap<String, String> = serde_json::from_str(&body).unwrap();
        loaded.set_ide_table(i, m.into_iter().collect());
    }

    assert_eq!(loaded.entry_list().len(), 2);
    assert_eq!(loaded.get(&key("p", "1.0")), Some(&entry("files/p-1.zip", "hp")));
    assert_eq!(loaded.get(&key("q", "2.0")), Some(&entry("files/q-2.jar", "hq")));
    assert_eq!(loaded.ide_tables().len(), 2);
    assert_eq!(loaded.chosen_version(&a, "p").map(String::as_str), Some("1.0"));
    assert_eq!(loaded.chosen_version(&b, "q").map(String::as_str), Some("2.0"));
    assert_eq!(loaded.chosen_version(&b, "p").map(String::as_str), Some("1.0"));
    assert_eq!(loaded.chosen_version(&a, "q"), None);
}

#[test]
fn end_to_end_resolution_and_merge() {
    let x = IdeVersion {
        ide: IdeProduct::WebStorm,
        version: "2025.1".to_string(),
        build_number: "251.100".to_string(),
    };
    let releases = vec![
        PluginDetailsIdeaPlugin {
            version: "2.0".to_string(),
            idea_version: PluginDetailsIdeaVersion { since_build: Some("250.0".to_string()), until_build: None },
        },
        PluginDetailsIdeaPlugin {
            version: "1.0".to_string(),
            idea_version: PluginDetailsIdeaVersion {
                since_build: Some("200.0".to_string()),
                until_build: Some("250.*".to_string()),
            },
        },
    ];
    let chosen = supported_version(&x, &releases).unwrap();
    assert_eq!(releases[chosen].version, "2.0");

    let mut db = PluginDb::new();
    db.insert(&x, "plugin", &releases[chosen].version, &entry("files/plugin-2.0.zip", "hash"));
    let found = db.get(&PluginVersion::from_key("plugin/--/2.0".to_string()));
    assert_eq!(found, Some(&entry("files/plugin-2.0.zip", "hash")));
    assert_eq!(db.chosen_version(&x, "plugin").map(String::as_str), Some("2.0"));
}
