use license_scout::json::{extract_license, join_comma, JsonValue};
use license_scout::lockfile::{build_package_lock_record, package_name_from_path,
    parse_package_lock};
use license_scout::requirements::{normalize_package_name, parse_requirement_line,
    parse_requirements};

#[test]
fn requirement_line_parsing() {
    assert_eq!(
        parse_requirement_line("requests==2.32.0"),
        Some(("requests".to_string(), Some("2.32.0".to_string())))
    );
    assert_eq!(
        parse_requirement_line("uvicorn[standard]>=0.27"),
        Some(("uvicorn".to_string(), Some("0.27".to_string())))
    );
    assert_eq!(parse_requirement_line("# comment line"), None);
    assert_eq!(parse_requirement_line(""), None);
}

#[test]
fn requirement_line_edge_cases() {
    assert_eq!(
        parse_requirement_line("  flask == 2.0.1  # pinned"),
        Some(("flask".to_string(), Some("2.0.1".to_string())))
    );
    assert_eq!(
        parse_requirement_line("My_Package~=1.0"),
        Some(("My-Package".to_string(), Some("1.0".to_string())))
    );
    assert_eq!(
        parse_requirement_line("simplejson; python_version < \"3\""),
        Some(("simplejson".to_string(), None))
    );
    assert_eq!(parse_requirement_line("-r other.txt"), None);
    assert_eq!(parse_requirement_line("   "), None);
    assert_eq!(
        parse_requirement_line("bare-name"),
        Some(("bare-name".to_string(), None))
    );
    assert_eq!(
        parse_requirement_line("pkg=="),
        Some(("pkg".to_string(), None))
    );
}

#[test]
fn requirement_roundtrip_on_concrete_pairs() {
    let cases = ["requests==2.32.0", "uvicorn==0.27", "My_Package==1.0"];
    for line in cases {
        let (name, version) = parse_requirement_line(line).unwrap();
        let derived = format!("{}=={}", name, version.clone().unwrap());
        assert_eq!(
            parse_requirement_line(&derived),
            Some((name, version))
        );
    }
}

#[test]
fn package_name_normalization() {
    assert_eq!(normalize_package_name("uvicorn[standard]"), Some("uvicorn".to_string()));
    assert_eq!(normalize_package_name("a_b_c"), Some("a-b-c".to_string()));
    assert_eq!(normalize_package_name("   "), None);
    assert_eq!(normalize_package_name("[extra]"), None);
}

#[test]
fn package_name_from_path_handles_scoped_packages() {
    assert_eq!(
        package_name_from_path("node_modules/@types/node"),
        Some("@types/node".to_string())
    );
    assert_eq!(
        package_name_from_path("node_modules/lodash"),
        Some("lodash".to_string())
    );
}

#[test]
fn package_name_from_path_edge_cases() {
    assert_eq!(
        package_name_from_path("node_modules/a/node_modules/b"),
        Some("b".to_string())
    );
    assert_eq!(package_name_from_path(""), None);
    assert_eq!(package_name_from_path("node_modules"), None);
    assert_eq!(package_name_from_path("plain"), Some("plain".to_string()));
}

#[test]
fn license_field_extraction_shapes() {
    let arr = JsonValue::Arr(vec![
        JsonValue::Str("MIT".to_string()),
        JsonValue::Str("Apache-2.0".to_string()),
    ]);
    assert_eq!(extract_license(&arr), Some("MIT, Apache-2.0".to_string()));

    let typed = JsonValue::Obj(vec![("type".to_string(), JsonValue::Str("ISC".to_string()))]);
    assert_eq!(extract_license(&typed), Some("ISC".to_string()));

    assert_eq!(extract_license(&JsonValue::Null), None);
    assert_eq!(extract_license(&JsonValue::Bool(true)), None);
    assert_eq!(extract_license(&JsonValue::Int(3)), None);
    assert_eq!(
        extract_license(&JsonValue::Str("BSD-3-Clause".to_string())),
        Some("BSD-3-Clause".to_string())
    );
    let untyped = JsonValue::Obj(vec![("name".to_string(), JsonValue::Str("x".to_string()))]);
    assert_eq!(extract_license(&untyped), None);
    let nested = JsonValue::Arr(vec![
        JsonValue::Null,
        JsonValue::Obj(vec![("type".to_string(), JsonValue::Str("ISC".to_string()))]),
    ]);
    assert_eq!(extract_license(&nested), Some("ISC".to_string()));
}

#[test]
fn join_comma_concatenates_in_order() {
    assert_eq!(join_comma(&vec![]), "".to_string());
    assert_eq!(join_comma(&vec!["MIT".to_string()]), "MIT".to_string());
    assert_eq!(
        join_comma(&vec!["a".to_string(), "b".to_string(), "c".to_string()]),
        "a, b, c".to_string()
    );
}

fn lock_entry(fields: Vec<(&str, JsonValue)>) -> JsonValue {
    JsonValue::Obj(fields.into_iter().map(|(k, v)| (k.to_string(), v)).collect())
}

#[test]
fn packages_map_lockfile_parses() {
    let root = lock_entry(vec![
        ("name", JsonValue::Str("myapp".to_string())),
        (
            "packages",
            lock_entry(vec![
                ("", lock_entry(vec![("version", JsonValue::Str("1.0.0".to_string()))])),
                (
                    "node_modules/lodash",
                    lock_entry(vec![
                        ("version", JsonValue::Str("4.17.21".to_string())),
                        ("license", JsonValue::Str("MIT".to_string())),
                    ]),
                ),
            ]),
        ),
    ]);
    let records = parse_package_lock(&root, "/tmp/package-lock.json");
    assert_eq!(records.len(), 2);
    assert_eq!(records[0].name, "myapp");
    assert_eq!(records[0].version, Some("1.0.0".to_string()));
    assert_eq!(records[0].license, "Unknown");
    assert_eq!(records[0].manager, "npm");
    assert_eq!(records[1].name, "lodash");
    assert_eq!(records[1].license, "MIT");
    assert_eq!(records[1].source, "/tmp/package-lock.json");
    assert!(records[1].homepage.is_none());
}

#[test]
fn dependencies_map_lockfile_flattens_nested() {
    let root = lock_entry(vec![(
        "dependencies",
        lock_entry(vec![(
            "outer",
            lock_entry(vec![
                ("version", JsonValue::Str("1.0.0".to_string())),
                ("license", JsonValue::Str("ISC".to_string())),
                (
                    "dependencies",
                    lock_entry(vec![(
                        "inner",
                        lock_entry(vec![("version", JsonValue::Str("0.2.0".to_string()))]),
                    )]),
                ),
            ]),
        )]),
    )]);
    let records = parse_package_lock(&root, "/x/package-lock.json");
    assert_eq!(records.len(), 2);
    assert_eq!(records[0].name, "outer");
    assert_eq!(records[0].license, "ISC");
    assert_eq!(records[1].name, "inner");
    assert_eq!(records[1].version, Some("0.2.0".to_string()));
    assert_eq!(records[1].license, "Unknown");
}

#[test]
fn lockfile_without_known_shape_is_empty() {
    let root = lock_entry(vec![("name", JsonValue::Str("x".to_string()))]);
    assert_eq!(parse_package_lock(&root, "/p").len(), 0);
}

#[test]
fn package_record_name_fallbacks() {
    let root = lock_entry(vec![("name", JsonValue::Str("rootpkg".to_string()))]);
    let own = lock_entry(vec![("name", JsonValue::Str("explicit".to_string()))]);
    let rec = build_package_lock_record("node_modules/other", &own, "/s", &root).unwrap();
    assert_eq!(rec.name, "explicit");
    let anon = lock_entry(vec![]);
    let rec = build_package_lock_record("node_modules/other", &anon, "/s", &root).unwrap();
    assert_eq!(rec.name, "other");
    let rec = build_package_lock_record("", &anon, "/s", &root).unwrap();
    assert_eq!(rec.name, "rootpkg");
    let no_name_root = lock_entry(vec![]);
    assert!(build_package_lock_record("", &anon, "/s", &no_name_root).is_none());
}

#[test]
fn requirements_file_yields_records() {
    let content = "flask==2.0.1\n# comment\n\nrequests>=2.0\r\n-e .\n";
    let records = parse_requirements(content, "/proj/requirements.txt");
    assert_eq!(records.len(), 2);
    assert_eq!(records[0].manager, "pip");
    assert_eq!(records[0].name, "flask");
    assert_eq!(records[0].version, Some("2.0.1".to_string()));
    assert_eq!(records[0].license, "Unknown");
    assert_eq!(records[0].source, "/proj/requirements.txt");
    assert!(records[0].homepage.is_none());
    assert_eq!(records[1].name, "requests");
    assert_eq!(records[1].version, Some("2.0".to_string()));
}

#[test]
fn license_array_drops_empty_extractions() {
    let arr = JsonValue::Arr(vec![
        JsonValue::Str("".to_string()),
        JsonValue::Str("MIT".to_string()),
    ]);
    assert_eq!(extract_license(&arr), Some("MIT".to_string()));
    let only_empty = JsonValue::Arr(vec![JsonValue::Str("".to_string())]);
    assert_eq!(extract_license(&only_empty), None);
}
