use license_scout::cache::{cache_key, LicenseCache};
use license_scout::json::JsonValue;
use license_scout::enrich::{
    apply_metadata, needs_metadata, should_update_license, EnrichmentSession, FetchDecision,
    FetchOutcome,
};
use license_scout::types::{DependencyRecord, PackageMetadata};

fn record(name: &str, license: &str, homepage: Option<&str>) -> DependencyRecord {
    DependencyRecord {
        manager: "pip".to_string(),
        name: name.to_string(),
        version: None,
        license: license.to_string(),
        source: "/proj/requirements.txt".to_string(),
        homepage: homepage.map(|h| h.to_string()),
    }
}

#[test]
fn cache_key_is_case_folded() {
    assert_eq!(cache_key("NPM", "Left-Pad"), "npm::left-pad");
    assert_eq!(cache_key("pip", "requests"), "pip::requests");
}

#[test]
fn cache_round_trip_is_case_insensitive() {
    let mut cache = LicenseCache::new();
    let meta = PackageMetadata {
        license: Some("WTFPL".to_string()),
        homepage: Some("https://left-pad.example".to_string()),
    };
    cache.insert("npm", "Left-Pad", meta);
    assert!(cache.is_dirty());

    let encoded = cache.to_json();
    let reloaded = LicenseCache::from_json(&encoded).unwrap();
    assert!(!reloaded.is_dirty());
    let got = reloaded.get("NPM", "left-pad").unwrap();
    assert_eq!(got.license, Some("WTFPL".to_string()));
    assert_eq!(got.homepage, Some("https://left-pad.example".to_string()));
}

#[test]
fn cache_rejects_other_versions() {
    let doc = JsonValue::Obj(vec![
        ("version".to_string(), JsonValue::Int(2)),
        ("entries".to_string(), JsonValue::Obj(vec![])),
    ]);
    assert!(LicenseCache::from_json(&doc).is_err());
    let ok = JsonValue::Obj(vec![
        ("version".to_string(), JsonValue::Int(1)),
        ("entries".to_string(), JsonValue::Obj(vec![])),
    ]);
    assert!(LicenseCache::from_json(&ok).is_ok());
    let bad_entry = JsonValue::Obj(vec![
        ("version".to_string(), JsonValue::Int(1)),
        (
            "entries".to_string(),
            JsonValue::Obj(vec![(
                "pip::x".to_string(),
                JsonValue::Obj(vec![("license".to_string(), JsonValue::Int(5))]),
            )]),
        ),
    ]);
    assert!(LicenseCache::from_json(&bad_entry).is_err());
}

#[test]
fn needs_metadata_rules() {
    assert!(needs_metadata(&record("a", "Unknown", Some("https://a"))));
    assert!(needs_metadata(&record("a", "  ", Some("https://a"))));
    assert!(needs_metadata(&record("a", "MIT", None)));
    assert!(!needs_metadata(&record("a", "MIT", Some("https://a"))));
    assert!(needs_metadata(&record("a", "uNknOwn", Some("https://a"))));
}

#[test]
fn should_update_license_rules() {
    assert!(should_update_license("Unknown", Some("MIT")));
    assert!(should_update_license("  ", Some("MIT")));
    assert!(!should_update_license("MIT", Some("Apache-2.0")));
    assert!(!should_update_license("Unknown", None));
}

#[test]
fn enrichment_never_downgrades() {
    let mut rec = record("requests", "MIT", Some("https://requests.example"));
    apply_metadata(&mut rec, &Some(PackageMetadata { license: None, homepage: None }));
    assert_eq!(rec.license, "MIT");
    assert_eq!(rec.homepage, Some("https://requests.example".to_string()));

    let mut rec = record("requests", "MIT", None);
    apply_metadata(
        &mut rec,
        &Some(PackageMetadata {
            license: Some("Apache-2.0".to_string()),
            homepage: Some("https://r".to_string()),
        }),
    );
    assert_eq!(rec.license, "MIT");
    assert_eq!(rec.homepage, Some("https://r".to_string()));

    let mut rec = record("requests", "Unknown", None);
    apply_metadata(
        &mut rec,
        &Some(PackageMetadata { license: Some("Apache-2.0".to_string()), homepage: None }),
    );
    assert_eq!(rec.license, "Apache-2.0");
}

#[test]
fn session_fetches_each_key_once() {
    let mut cache = LicenseCache::new();
    let mut session = EnrichmentSession::new();
    let mut first = record("requests", "Unknown", None);
    let d = session.begin(&cache, &mut first);
    assert!(matches!(d, FetchDecision::Fetch));
    session.complete(
        &mut cache,
        &mut first,
        FetchOutcome::Success(PackageMetadata {
            license: Some("Apache-2.0".to_string()),
            homepage: None,
        }),
    );
    assert_eq!(first.license, "Apache-2.0");

    // Nine more records under the same key: none may fetch again.
    for _ in 0..9 {
        let mut again = record("requests", "Unknown", None);
        let d = session.begin(&cache, &mut again);
        assert!(matches!(d, FetchDecision::NoFetch));
        assert_eq!(again.license, "Apache-2.0");
    }
}

#[test]
fn session_memoizes_negative_results_without_caching() {
    let mut cache = LicenseCache::new();
    let mut session = EnrichmentSession::new();
    let mut rec = record("ghost-package", "Unknown", None);
    let d = session.begin(&cache, &mut rec);
    assert!(matches!(d, FetchDecision::Fetch));
    session.complete(&mut cache, &mut rec, FetchOutcome::NotFound);
    assert_eq!(rec.license, "Unknown");
    assert!(!cache.is_dirty());
    assert!(cache.get("pip", "ghost-package").is_none());

    let mut again = record("ghost-package", "Unknown", None);
    let d = session.begin(&cache, &mut again);
    assert!(matches!(d, FetchDecision::NoFetch));
    assert_eq!(again.license, "Unknown");
}

#[test]
fn session_uses_persistent_cache_before_fetching() {
    let mut cache = LicenseCache::new();
    cache.insert(
        "pip",
        "flask",
        PackageMetadata { license: Some("BSD-3-Clause".to_string()), homepage: None },
    );
    let mut session = EnrichmentSession::new();
    let mut rec = record("flask", "Unknown", None);
    let d = session.begin(&cache, &mut rec);
    assert!(matches!(d, FetchDecision::NoFetch));
    assert_eq!(rec.license, "BSD-3-Clause");
}

#[test]
fn settled_records_are_skipped() {
    let cache = LicenseCache::new();
    let mut session = EnrichmentSession::new();
    let mut rec = record("good", "MIT", Some("https://good.example"));
    let d = session.begin(&cache, &mut rec);
    assert!(matches!(d, FetchDecision::NoFetch));
    assert_eq!(rec.license, "MIT");
}

#[test]
fn default_cli_options() {
    let cli = license_scout::cli::Cli::new();
    assert!(cli.paths.is_empty());
    assert!(cli.json_output.is_none());
    assert!(!cli.print_json);
    assert!(!cli.fetch_licenses);
    assert!(cli.search.is_none());
    assert!(!cli.hide_source);
}

#[test]
fn stored_unknown_licenses_load_as_absent() {
    let doc = JsonValue::Obj(vec![
        ("version".to_string(), JsonValue::Int(1)),
        (
            "entries".to_string(),
            JsonValue::Obj(vec![(
                "pip::x".to_string(),
                JsonValue::Obj(vec![
                    ("license".to_string(), JsonValue::Str(" UNKNOWN ".to_string())),
                    ("homepage".to_string(), JsonValue::Str("https://x.example".to_string())),
                ]),
            )]),
        ),
    ]);
    let cache = LicenseCache::from_json(&doc).unwrap();
    let got = cache.get("pip", "x").unwrap();
    assert_eq!(got.license, None);
    assert_eq!(got.homepage, Some("https://x.example".to_string()));
}
