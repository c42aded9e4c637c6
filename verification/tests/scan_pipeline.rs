use license_scout::json::JsonValue;
use license_scout::pipeline::{
    record_matches_query, resolve_search_paths, shorten_source_path, shorten_url, sort_records,
    strip_relative,
};
use license_scout::registry::{
    decode_pypi_response, license_from_classifiers, lookup_npm_version_metadata,
    normalize_homepage, normalize_license_text, normalize_repository_url,
    npm_metadata_from_response, npm_url, pypi_metadata_from_info, pypi_url,
};
use license_scout::scan::{collect_records, FileData, FsTree, ScanError};
use license_scout::types::DependencyRecord;

fn dir(name: &str, entries: Vec<FsTree>) -> FsTree {
    FsTree::Dir { name: name.to_string(), entries }
}

fn text_file(name: &str, content: &str) -> FsTree {
    FsTree::File { name: name.to_string(), data: FileData::Text(content.to_string()) }
}

#[test]
fn node_modules_subtree_is_never_scanned() {
    let root = dir(
        "proj",
        vec![
            text_file("requirements.txt", "flask==2.0.1\n"),
            dir(
                "node_modules",
                vec![dir("somepkg", vec![text_file("requirements.txt", "evil==1.0\n")])],
            ),
        ],
    );
    let records = collect_records(&root, "/work/proj").unwrap();
    assert_eq!(records.len(), 1);
    assert_eq!(records[0].name, "flask");
    assert_eq!(records[0].version, Some("2.0.1".to_string()));
    assert_eq!(records[0].source, "/work/proj/requirements.txt");
}

#[test]
fn exclusion_is_case_insensitive() {
    let root = dir(
        "proj",
        vec![dir(
            "Node_Modules",
            vec![text_file("requirements.txt", "evil==1.0\n")],
        )],
    );
    let records = collect_records(&root, "/p").unwrap();
    assert_eq!(records.len(), 0);
}

#[test]
fn other_denylisted_names_are_pruned() {
    for bad in [".git", "target", "__pycache__", "venv", ".venv"] {
        let root = dir(
            "proj",
            vec![dir(bad, vec![text_file("requirements.txt", "x==1\n")])],
        );
        assert_eq!(collect_records(&root, "/p").unwrap().len(), 0);
    }
}

#[test]
fn malformed_lockfile_aborts_scan() {
    let root = dir(
        "proj",
        vec![FsTree::File {
            name: "package-lock.json".to_string(),
            data: FileData::Json(None),
        }],
    );
    let err = collect_records(&root, "/p").unwrap_err();
    assert!(matches!(err, ScanError::MalformedLockfile(_)));
    assert_eq!(err.path().as_str(), "/p/package-lock.json");
}

#[test]
fn unread_manifest_aborts_scan() {
    let root = dir(
        "proj",
        vec![FsTree::File { name: "requirements.txt".to_string(), data: FileData::Unread }],
    );
    let err = collect_records(&root, "/p").unwrap_err();
    assert!(matches!(err, ScanError::UnreadManifest(_)));
}

#[test]
fn lockfiles_and_manifests_combine() {
    let lock = JsonValue::Obj(vec![(
        "dependencies".to_string(),
        JsonValue::Obj(vec![(
            "lodash".to_string(),
            JsonValue::Obj(vec![("version".to_string(), JsonValue::Str("4.0.0".to_string()))]),
        )]),
    )]);
    let root = dir(
        "proj",
        vec![
            text_file("requirements.txt", "flask==2.0.1\n"),
            FsTree::File {
                name: "package-lock.json".to_string(),
                data: FileData::Json(Some(lock)),
            },
            text_file("README.md", "not scanned"),
        ],
    );
    let records = collect_records(&root, "/p").unwrap();
    assert_eq!(records.len(), 2);
    assert_eq!(records[0].name, "flask");
    assert_eq!(records[1].name, "lodash");
    assert_eq!(records[1].manager, "npm");
}

fn rec(manager: &str, name: &str, version: Option<&str>, source: &str) -> DependencyRecord {
    DependencyRecord {
        manager: manager.to_string(),
        name: name.to_string(),
        version: version.map(|v| v.to_string()),
        license: "Unknown".to_string(),
        source: source.to_string(),
        homepage: None,
    }
}

#[test]
fn sorting_orders_by_all_four_keys() {
    let mut records = vec![
        rec("pip", "flask", Some("2.0.1"), "/b/requirements.txt"),
        rec("npm", "lodash", None, "/a/package-lock.json"),
        rec("pip", "flask", Some("2.0.1"), "/a/requirements.txt"),
        rec("pip", "flask", None, "/a/requirements.txt"),
    ];
    sort_records(&mut records);
    assert_eq!(records[0].manager, "npm");
    assert_eq!(records[1].version, None);
    assert_eq!(records[2].source, "/a/requirements.txt");
    assert_eq!(records[3].source, "/b/requirements.txt");
}

#[test]
fn sorting_by_source_only_is_ascending() {
    let mut records = vec![
        rec("pip", "flask", Some("2.0.1"), "/c/requirements.txt"),
        rec("pip", "flask", Some("2.0.1"), "/a/requirements.txt"),
        rec("pip", "flask", Some("2.0.1"), "/b/requirements.txt"),
    ];
    sort_records(&mut records);
    let sources: Vec<&str> = records.iter().map(|r| r.source.as_str()).collect();
    assert_eq!(sources, vec!["/a/requirements.txt", "/b/requirements.txt", "/c/requirements.txt"]);
}

#[test]
fn query_matches_any_field_case_insensitively() {
    let mut r = rec("pip", "Flask", Some("2.0.1"), "/proj/requirements.txt");
    r.license = "BSD-3-Clause".to_string();
    r.homepage = Some("https://flask.example".to_string());
    assert!(record_matches_query(&r, "flask"));
    assert!(record_matches_query(&r, "bsd"));
    assert!(record_matches_query(&r, "2.0"));
    assert!(record_matches_query(&r, "proj"));
    assert!(record_matches_query(&r, "pip"));
    assert!(!record_matches_query(&r, "npm-only"));
    assert!(record_matches_query(&r, ""));
}

#[test]
fn search_paths_resolve_relative_entries() {
    let none: Vec<String> = vec![];
    assert_eq!(resolve_search_paths(&none, "/cwd"), vec!["/cwd".to_string()]);
    let some = vec!["sub".to_string(), "/abs".to_string()];
    assert_eq!(
        resolve_search_paths(&some, "/cwd"),
        vec!["/cwd/sub".to_string(), "/abs".to_string()]
    );
}

#[test]
fn source_paths_shorten_for_display() {
    assert_eq!(strip_relative("/cwd/a/b", "/cwd"), Some("a/b".to_string()));
    assert_eq!(strip_relative("/cwd", "/cwd"), Some("".to_string()));
    assert_eq!(strip_relative("/other/a", "/cwd"), None);

    let bases = vec!["/roots/projx".to_string()];
    assert_eq!(
        shorten_source_path("/cwd/a/requirements.txt", "/cwd", &bases, None),
        "a/requirements.txt"
    );
    assert_eq!(
        shorten_source_path("/roots/projx/requirements.txt", "/cwd", &bases, None),
        "projx/requirements.txt"
    );
    assert_eq!(
        shorten_source_path("/home/dev/x.txt", "/cwd", &bases, Some("/home/dev")),
        "~/x.txt"
    );
    assert_eq!(
        shorten_source_path("/elsewhere/x.txt", "/cwd", &bases, None),
        "/elsewhere/x.txt"
    );
}

#[test]
fn urls_shorten_at_sixty_characters() {
    let short = "https://example.org";
    assert_eq!(shorten_url(short), short.to_string());
    let long: String = "x".repeat(61);
    let shortened = shorten_url(&long);
    assert_eq!(shortened.len(), 63);
    assert!(shortened.ends_with("..."));
    assert!(shortened.starts_with(&"x".repeat(60)));
}

#[test]
fn registry_urls_percent_encode_names() {
    assert_eq!(pypi_url("flask"), "https://pypi.org/pypi/flask/json");
    assert_eq!(pypi_url("a b"), "https://pypi.org/pypi/a%20b/json");
    assert_eq!(npm_url("@types/node"), "https://registry.npmjs.org/%40types%2Fnode");
}

#[test]
fn license_and_homepage_normalization() {
    assert_eq!(normalize_license_text("  MIT  "), Some("MIT".to_string()));
    assert_eq!(normalize_license_text("   "), None);
    assert_eq!(normalize_license_text(" UNKNOWN "), None);

    assert_eq!(normalize_homepage(" https://a.example/ "), Some("https://a.example".to_string()));
    assert_eq!(normalize_homepage("///"), None);
    assert_eq!(normalize_homepage(""), None);

    assert_eq!(
        normalize_repository_url("git+https://github.com/a/b.git"),
        Some("https://github.com/a/b".to_string())
    );
    assert_eq!(
        normalize_repository_url("https://github.com/a/b"),
        Some("https://github.com/a/b".to_string())
    );
    assert_eq!(normalize_repository_url("git+"), None);
}

#[test]
fn classifiers_yield_first_license() {
    let classifiers = vec![
        "Development Status :: 5 - Production/Stable".to_string(),
        "License :: OSI Approved :: MIT License".to_string(),
        "License :: OSI Approved :: Apache Software License".to_string(),
    ];
    assert_eq!(license_from_classifiers(&classifiers), Some("MIT License".to_string()));
    assert_eq!(license_from_classifiers(&vec![]), None);
    assert_eq!(
        license_from_classifiers(&vec!["Topic :: Utilities".to_string()]),
        None
    );
}

fn obj(fields: Vec<(&str, JsonValue)>) -> JsonValue {
    JsonValue::Obj(fields.into_iter().map(|(k, v)| (k.to_string(), v)).collect())
}

#[test]
fn pypi_response_decodes_and_derives_metadata() {
    let response = obj(vec![(
        "info",
        obj(vec![
            ("license", JsonValue::Str("  ".to_string())),
            (
                "classifiers",
                JsonValue::Arr(vec![JsonValue::Str(
                    "License :: OSI Approved :: BSD License".to_string(),
                )]),
            ),
            ("home_page", JsonValue::Str("https://legacy.example/".to_string())),
            (
                "project_urls",
                obj(vec![
                    ("Documentation", JsonValue::Str("https://docs.example/".to_string())),
                    ("Homepage", JsonValue::Str("https://home.example/".to_string())),
                ]),
            ),
        ]),
    )]);
    let info = decode_pypi_response(&response).unwrap();
    let meta = pypi_metadata_from_info(&info).unwrap();
    assert_eq!(meta.license, Some("BSD License".to_string()));
    assert_eq!(meta.homepage, Some("https://home.example".to_string()));

    let malformed = obj(vec![("info", obj(vec![("license", JsonValue::Int(1))]))]);
    assert!(decode_pypi_response(&malformed).is_err());
    let no_info = obj(vec![]);
    assert!(decode_pypi_response(&no_info).is_err());
}

#[test]
fn npm_response_prefers_pinned_version() {
    let response = obj(vec![
        ("license", JsonValue::Str("MIT".to_string())),
        ("homepage", JsonValue::Str("https://pkg.example/".to_string())),
        (
            "versions",
            obj(vec![(
                "1.2.3",
                obj(vec![
                    ("license", JsonValue::Str("ISC".to_string())),
                    (
                        "repository",
                        obj(vec![(
                            "url",
                            JsonValue::Str("git+https://github.com/a/b.git".to_string()),
                        )]),
                    ),
                ]),
            )]),
        ),
        ("dist-tags", obj(vec![("latest", JsonValue::Str("1.2.3".to_string()))])),
    ]);
    let pinned = "1.2.3".to_string();
    let meta = npm_metadata_from_response(&response, Some(&pinned)).unwrap();
    assert_eq!(meta.license, Some("ISC".to_string()));
    assert_eq!(meta.homepage, Some("https://github.com/a/b".to_string()));

    let meta = npm_metadata_from_response(&response, None).unwrap();
    assert_eq!(meta.license, Some("MIT".to_string()));
    assert_eq!(meta.homepage, Some("https://pkg.example".to_string()));

    let other = "9.9.9".to_string();
    let meta = npm_metadata_from_response(&response, Some(&other)).unwrap();
    assert_eq!(meta.license, Some("MIT".to_string()));

    let version_only = obj(vec![
        (
            "versions",
            obj(vec![("0.1.0", obj(vec![("license", JsonValue::Str("0BSD".to_string()))]))]),
        ),
        ("dist-tags", obj(vec![("latest", JsonValue::Str("0.1.0".to_string()))])),
    ]);
    let meta = npm_metadata_from_response(&version_only, None).unwrap();
    assert_eq!(meta.license, Some("0BSD".to_string()));
    assert!(lookup_npm_version_metadata(&version_only, "9.9.9").is_none());
    assert!(npm_metadata_from_response(&obj(vec![]), None).is_none());
}

#[test]
fn unknown_licenses_never_become_metadata() {
    let classifiers = vec![
        "License :: unknown".to_string(),
        "License :: OSI Approved :: MIT License".to_string(),
    ];
    assert_eq!(license_from_classifiers(&classifiers), Some("MIT License".to_string()));
    assert_eq!(
        license_from_classifiers(&vec!["License :: UNKNOWN".to_string()]),
        None
    );

    let entry = obj(vec![
        ("license", JsonValue::Str("Unknown".to_string())),
        ("homepage", JsonValue::Str("https://pkg.example/".to_string())),
    ]);
    let meta = npm_metadata_from_response(&entry, None).unwrap();
    assert_eq!(meta.license, None);
    assert_eq!(meta.homepage, Some("https://pkg.example".to_string()));
    let license_only = obj(vec![("license", JsonValue::Str(" unknown ".to_string()))]);
    assert!(npm_metadata_from_response(&license_only, None).is_none());
}
