use jetbrains_plugins::ides::{
    allowed_build_version, android_releases, jetbrains_releases, Body, Build, Channel, Content,
    IdeProduct, IdeVersion, Item, Product, Products,
};

#[test]
fn product_codes_round_trip() {
    let all = [
        IdeProduct::IntelliJIdea,
        IdeProduct::PhpStorm,
        IdeProduct::WebStorm,
        IdeProduct::PyCharm,
        IdeProduct::RubyMine,
        IdeProduct::CLion,
        IdeProduct::GoLand,
        IdeProduct::DataGrip,
        IdeProduct::DataSpell,
        IdeProduct::Rider,
        IdeProduct::AndroidStudio,
        IdeProduct::RustRover,
        IdeProduct::Aqua,
        IdeProduct::Writerside,
        IdeProduct::Mps,
    ];
    for p in all {
        assert_eq!(IdeProduct::try_from_code(p.product_code()), Some(p));
        assert_eq!(IdeProduct::try_from_nix_key(p.nix_key()), Some(p));
    }
    assert_eq!(IdeProduct::try_from_code("IC"), None);
    assert_eq!(IdeProduct::try_from_nix_key("idea-community"), None);
    assert_eq!(IdeProduct::RubyMine.nix_key(), "ruby-mine");
    assert_eq!(IdeProduct::Writerside.product_code(), "WRS");
}

#[test]
fn json_filename_round_trip() {
    let v = IdeVersion {
        ide: IdeProduct::AndroidStudio,
        version: "2025.1.2".to_string(),
        build_number: "251.1".to_string(),
    };
    assert_eq!(v.to_json_filename(), "android-studio-2025.1.2.json");
    let back = IdeVersion::from_json_filename("android-studio-2025.1.2.json").unwrap();
    assert_eq!(back.ide, IdeProduct::AndroidStudio);
    assert_eq!(back.version, "2025.1.2");
    assert_eq!(back.build_number, "");
    assert!(back == v);
}

#[test]
fn json_filename_rejects() {
    assert!(IdeVersion::from_json_filename("idea-2025.1.txt").is_none());
    assert!(IdeVersion::from_json_filename("idea2025.1.json").is_none());
    assert!(IdeVersion::from_json_filename("unknown-2025.1.json").is_none());
}

#[test]
fn processed_release_series() {
    assert!(allowed_build_version("2025.1"));
    assert!(allowed_build_version("2026.2.1"));
    assert!(allowed_build_version("2027.1"));
    assert!(allowed_build_version("2024.3.5"));
    assert!(!allowed_build_version("2024.2.1"));
    assert!(!allowed_build_version("2023.3"));
}

fn build(number: &str, full: Option<&str>, version: &str) -> Build {
    Build { number: number.to_string(), full_number: full.map(str::to_string), version: version.to_string() }
}

#[test]
fn jetbrains_feed_selection() {
    let products = Products {
        product: vec![
            Product {
                code: vec!["IIU".to_string(), "IU".to_string()],
                channel: Some(vec![
                    Channel {
                        id: "IU-RELEASE-licensing-RELEASE".to_string(),
                        build: vec![
                            build("251.1", Some("251.1.5"), "2025.1"),
                            build("241.1", None, "2024.1"),
                            build("243.2", None, "2024.3.1"),
                        ],
                    },
                    Channel { id: "IU-EAP-licensing-EAP".to_string(), build: vec![build("252.1", None, "2025.2")] },
                ]),
            },
            Product { code: vec!["IU".to_string()], channel: Some(vec![Channel {
                id: "X-RELEASE-licensing-RELEASE".to_string(),
                build: vec![build("251.9", None, "2025.1.9")],
            }]) },
            Product { code: vec!["GO".to_string()], channel: None },
            Product { code: vec!["GO".to_string()], channel: Some(vec![Channel {
                id: "GO-RELEASE-licensing-RELEASE".to_string(),
                build: vec![build("251.3", None, "2025.1.3")],
            }]) },
        ],
    };
    let got = jetbrains_releases(&products);
    let views: Vec<(IdeProduct, String, String)> =
        got.iter().map(|v| (v.ide, v.version.clone(), v.build_number.clone())).collect();
    assert_eq!(
        views,
        vec![
            (IdeProduct::IntelliJIdea, "2025.1".to_string(), "251.1.5".to_string()),
            (IdeProduct::IntelliJIdea, "2024.3.1".to_string(), "243.2".to_string()),
        ]
    );
}

fn item(version: &str, build: &str, platform: &str) -> Item {
    Item {
        version: version.to_string(),
        build: build.to_string(),
        platform_build: platform.to_string(),
        channel: "Release".to_string(),
    }
}

#[test]
fn android_feed_selection() {
    let body = Body {
        content: Content {
            item: vec![
                item("2025.1.1", "AI-251.1", "251.100"),
                item("2023.1.1", "AI-231.1", "231.100"),
                item("2024.3.2", "AI-243.2", "243.200"),
            ],
        },
    };
    let got = android_releases(&body).unwrap();
    assert_eq!(got.len(), 2);
    assert_eq!(got[0].ide, IdeProduct::AndroidStudio);
    assert_eq!(got[0].version, "2025.1.1");
    assert_eq!(got[0].build_number, "251.100");
    assert_eq!(got[1].version, "2024.3.2");
}

#[test]
fn android_feed_rejects_foreign_build() {
    let body = Body {
        content: Content {
            item: vec![item("2025.1.1", "AI-251.1", "251.100"), item("2025.1.2", "IU-251.2", "251.200")],
        },
    };
    assert_eq!(android_releases(&body).err(), Some(1));
}
