use jetbrains_plugins::content::{
    after_probe, dash_non_alphanumeric, is_success_status, lookup_entry, make_entry,
    parse_prefetch_output, plan_prefetch, prefetch_args, storage_hash, EntryError, EntrySource,
    NotFoundCache, PrefetchPlan, ProbeVerdict,
};
use jetbrains_plugins::db::{PluginDb, PluginDbEntry, PluginVersion};
use jetbrains_plugins::ides::{IdeProduct, IdeVersion};

#[test]
fn not_found_is_probed_once() {
    let db = PluginDb::new();
    let mut cache = NotFoundCache::new();
    let key = PluginVersion::new("p", "1.0").unwrap();
    let mut probes = 0;
    for _ in 0..2 {
        match lookup_entry(&db, &cache, &key) {
            EntrySource::Probe => {
                probes += 1;
                assert_eq!(after_probe(&mut cache, &key, 404), ProbeVerdict::Missing);
            }
            EntrySource::KnownMissing => {}
            EntrySource::Known(_) => panic!("no entry was stored"),
        }
    }
    assert_eq!(probes, 1);
    assert!(cache.contains(&key));
    assert!(!cache.contains(&PluginVersion::new("p", "2.0").unwrap()));
}

#[test]
fn database_is_consulted_first() {
    let mut db = PluginDb::new();
    let i = IdeVersion { ide: IdeProduct::Aqua, version: "2025.1".to_string(), build_number: String::new() };
    let e = PluginDbEntry { path: "x".to_string(), hash: "h".to_string() };
    db.insert(&i, "p", "1.0", &e);
    let mut cache = NotFoundCache::new();
    let key = PluginVersion::new("p", "1.0").unwrap();
    cache.record(key.clone());
    match lookup_entry(&db, &cache, &key) {
        EntrySource::Known(found) => assert_eq!(found, e),
        _ => panic!("the database holds the entry"),
    }
}

#[test]
fn probe_statuses() {
    let mut cache = NotFoundCache::new();
    let key = PluginVersion::new("p", "1.0").unwrap();
    assert_eq!(after_probe(&mut cache, &key, 200), ProbeVerdict::Available);
    assert_eq!(after_probe(&mut cache, &key, 204), ProbeVerdict::Available);
    assert_eq!(after_probe(&mut cache, &key, 500), ProbeVerdict::Failed);
    assert_eq!(after_probe(&mut cache, &key, 302), ProbeVerdict::Failed);
    assert!(!cache.contains(&key));
    assert_eq!(after_probe(&mut cache, &key, 404), ProbeVerdict::Missing);
    assert!(cache.contains(&key));
    assert!(is_success_status(299));
    assert!(!is_success_status(300));
    assert!(!is_success_status(199));
}

#[test]
fn plan_for_zip_artifact() {
    let plan = plan_prefetch(
        "org.rust.lang",
        "0.4.1",
        "https://downloads.marketplace.jetbrains.com/files/8182/1234/intellij-rust.zip?updateId=1234&pluginId=8182",
    )
    .unwrap();
    assert_eq!(plan.url, "https://downloads.marketplace.jetbrains.com/files/8182/1234/intellij-rust.zip");
    assert_eq!(plan.path, "files/8182/1234/intellij-rust.zip");
    assert_eq!(plan.name, "org-rust-lang-0-4-1-source");
    assert!(plan.unpack);
    assert!(!plan.executable);
}

#[test]
fn plan_for_jar_artifact() {
    let plan = plan_prefetch("a", "1", "https://downloads.marketplace.jetbrains.com/files/1/a.jar").unwrap();
    assert!(!plan.unpack);
    assert!(plan.executable);
    assert_eq!(plan.path, "files/1/a.jar");
}

#[test]
fn plan_errors() {
    assert_eq!(plan_prefetch("a", "1", "https://example.com/a.jar").err(), Some(EntryError::ForeignUrl));
    assert_eq!(plan_prefetch("a", "1", "not a url").err(), Some(EntryError::BadUrl));
}

#[test]
fn dashes_replace_other_characters() {
    assert_eq!(dash_non_alphanumeric("a.b_c d9"), "a-b-c-d9");
    assert_eq!(dash_non_alphanumeric("äö"), "äö");
}

#[test]
fn tool_arguments() {
    let plan = PrefetchPlan {
        name: "n".to_string(),
        url: "u".to_string(),
        unpack: true,
        executable: false,
        path: "p".to_string(),
    };
    assert_eq!(
        prefetch_args(&plan),
        vec!["--print-path", "--type", "sha256", "--name", "n", "--unpack", "u"]
    );
    let jar = PrefetchPlan { unpack: false, executable: true, ..plan };
    assert_eq!(
        prefetch_args(&jar),
        vec!["--print-path", "--type", "sha256", "--name", "n", "--executable", "u"]
    );
}

#[test]
fn tool_output_is_split() {
    let out = "  0ysj\n/nix/store/abc-name\n";
    assert_eq!(
        parse_prefetch_output(out),
        Some(("0ysj".to_string(), "/nix/store/abc-name".to_string()))
    );
    assert_eq!(parse_prefetch_output("onlyhash\n"), None);
}

#[test]
fn hash_is_reencoded() {
    assert_eq!(
        storage_hash("0ysj00x31q08vxsznqd9pmvwa0rrzza8qqjy3hcvhallzm054cxb"),
        Some("qzNSQP2UKrgZHF5ijNT/OQPFd72pYft13wjgMDoAUns=".to_string())
    );
    assert_eq!(storage_hash("0ysj00x31q08vxsznqd9pmvwa0rrzza8qqjy3hcvhallzm054cxe"), None);
    assert_eq!(storage_hash("abc"), None);
    assert_eq!(storage_hash(""), Some(String::new()));
}

#[test]
fn entry_from_plan_and_hash() {
    let plan = PrefetchPlan {
        name: "n".to_string(),
        url: "u".to_string(),
        unpack: true,
        executable: false,
        path: "files/x.zip".to_string(),
    };
    let e = make_entry(&plan, "0ysj00x31q08vxsznqd9pmvwa0rrzza8qqjy3hcvhallzm054cxb").unwrap();
    assert_eq!(e.path, "files/x.zip");
    assert_eq!(e.hash, "qzNSQP2UKrgZHF5ijNT/OQPFd72pYft13wjgMDoAUns=");
    assert_eq!(make_entry(&plan, "!!").err(), Some(EntryError::BadHash));
}
