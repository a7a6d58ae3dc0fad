use plier::{is_valid_app_name, LookupError, ParseError, YongSpec};

#[test]
fn app_name_validity_matches_bare_key_rules() {
    assert!(is_valid_app_name("java"));
    assert!(is_valid_app_name("node-12_LTS"));
    assert!(!is_valid_app_name(""));
    assert!(!is_valid_app_name("my app"));
    assert!(!is_valid_app_name("a.b"));
}

#[test]
fn new_store_equals_store_loaded_from_empty_text() {
    assert_eq!(YongSpec::new(), YongSpec::load("").unwrap());
}

#[test]
fn parse_empty_document_yields_empty_store() {
    let spec = YongSpec::load("").unwrap();

    assert_eq!(spec.len(), 0);
    assert_eq!(spec.render(), "");
}

#[test]
fn unexpected_field_fails_with_schema_mismatch() {
    let err = YongSpec::load(
        "[apps.java]\nhome_name = \"java_home\"\ngreeting = [\"what?\"]\n",
    )
    .unwrap_err();

    assert_eq!(err, ParseError::Schema { field: "greeting".to_string() });
}

#[test]
fn missing_required_field_fails_with_schema_mismatch() {
    let err = YongSpec::load("[apps.java]\nhome_name = \"java_home\"\n").unwrap_err();

    assert_eq!(err, ParseError::Schema { field: "bins".to_string() });
}

#[test]
fn unknown_section_path_fails_with_schema_mismatch() {
    let err = YongSpec::load("[world]\ngreeting = [\"what?\"]\n").unwrap_err();

    assert_eq!(err, ParseError::Schema { field: "world".to_string() });
}

#[test]
fn malformed_text_fails_with_syntax_error() {
    let err = YongSpec::load("not [valid\n").unwrap_err();

    assert_eq!(err, ParseError::Syntax);
}

#[test]
fn unterminated_string_fails_with_syntax_error() {
    let err = YongSpec::load("[apps.java]\nhome_name = \"java_home\nbins = []\n").unwrap_err();

    assert_eq!(err, ParseError::Syntax);
}

#[test]
fn duplicate_section_fails_with_syntax_error() {
    let err = YongSpec::load(
        "[apps.a]\nhome_name = \"x\"\nbins = []\n\n[apps.a]\nhome_name = \"y\"\nbins = []\n",
    )
    .unwrap_err();

    assert_eq!(err, ParseError::Syntax);
}

#[test]
fn remove_absent_application_leaves_store_unchanged() {
    let doc = "[apps.java]\nhome_name = \"java_home\"\nbins = [\"bin\"]\n";
    let before = YongSpec::load(doc).unwrap();
    let mut after = YongSpec::load(doc).unwrap();
    after.remove_app("python");

    assert_eq!(before, after);
}

#[test]
fn remove_existing_application_deletes_it() {
    let mut spec = YongSpec::load("").unwrap();
    spec.add_app("java", "java_home", vec!["bin".to_string()]);
    spec.add_app("python", "python_home", vec!["Scripts".to_string()]);
    spec.remove_app("java");

    assert_eq!(spec.len(), 1);
    assert!(spec.get("java").is_none());
    assert!(spec.get("python").is_some());
}

#[test]
fn upsert_version_on_unknown_application_fails() {
    let mut spec = YongSpec::load("").unwrap();
    let err = spec.upsert_version("ghost", "1", "/nowhere").unwrap_err();

    assert_eq!(err, LookupError::UnknownApplication);
}

#[test]
fn upsert_replaces_in_place_and_appends_new() {
    let mut spec = YongSpec::load("").unwrap();
    spec.add_app("java", "java_home", vec!["bin".to_string()]);
    spec.upsert_version("java", "11", "/a").unwrap();
    spec.upsert_version("java", "14", "/b").unwrap();
    spec.upsert_version("java", "11", "/c").unwrap();
    let versions = spec.get("java").unwrap().versions.as_ref().unwrap();

    assert_eq!(versions.len(), 2);
    assert_eq!(versions[0].version, "11");
    assert_eq!(versions[0].home_path, "/c");
    assert_eq!(versions[1].version, "14");
    assert_eq!(versions[1].home_path, "/b");
}

#[test]
fn upsert_sequence_keeps_first_position_on_replacement() {
    let mut spec = YongSpec::load("").unwrap();
    spec.add_app("java", "java_home", vec!["bin".to_string()]);
    spec.upsert_version("java", "14", "/b").unwrap();
    spec.upsert_version("java", "11", "/c").unwrap();
    spec.upsert_version("java", "14", "/z").unwrap();
    let versions = spec.get("java").unwrap().versions.as_ref().unwrap();

    assert_eq!(versions.len(), 2);
    assert_eq!(versions[0].version, "14");
    assert_eq!(versions[0].home_path, "/z");
    assert_eq!(versions[1].version, "11");
    assert_eq!(versions[1].home_path, "/c");
}

#[test]
fn add_app_replaces_whole_entry_and_discards_versions() {
    let mut spec = YongSpec::load("").unwrap();
    spec.add_app("java", "java_home", vec!["bin".to_string()]);
    spec.upsert_version("java", "11", "/a").unwrap();
    spec.add_app("java", "jdk_home", vec![".".to_string()]);

    assert_eq!(spec.len(), 1);
    assert_eq!(spec.get("java").unwrap().home_name, "jdk_home");
    assert!(spec.get("java").unwrap().versions.is_none());
}

#[test]
fn end_to_end_scenario_renders_exact_document() {
    let mut spec = YongSpec::load("").unwrap();
    spec.add_app("java", "java_home", vec!["bin".to_string()]);
    spec.upsert_version("java", "11", "/path/to/java/11").unwrap();

    assert_eq!(
        spec.render(),
        "[apps.java]\nhome_name = \"java_home\"\nbins = [\"bin\"]\n\n[[apps.java.versions]]\nversion = \"11\"\nhome_path = \"/path/to/java/11\"\n"
    );
}

#[test]
fn sections_render_sorted_by_name() {
    let mut spec = YongSpec::load("").unwrap();
    spec.add_app("python", "python_home", vec!["Scripts".to_string()]);
    spec.add_app("java", "java_home", vec!["bin".to_string()]);

    assert_eq!(
        spec.render(),
        "[apps.java]\nhome_name = \"java_home\"\nbins = [\"bin\"]\n\n[apps.python]\nhome_name = \"python_home\"\nbins = [\"Scripts\"]\n"
    );
}

#[test]
fn round_trip_of_parsed_document() {
    let doc = "[apps.java]\nhome_name = \"java_home\"\nbins = [\"bin\"]\n\n[apps.python]\nhome_name = 'pythonhome'\nbins = ['.', 'Scripts']\n\n[[apps.python.versions]]\nversion = \"3.7.0\"\nhome_path = \"/path/to/python/3.7.0\"\n";
    let first = YongSpec::load(doc).unwrap();
    let second = YongSpec::load(&first.render()).unwrap();

    assert_eq!(first, second);
}

#[test]
fn special_characters_round_trip() {
    let mut spec = YongSpec::load("").unwrap();
    spec.add_app("java", "home \"dir\"", vec!["bin\\tools".to_string()]);
    spec.upsert_version("java", "1\n2", "C:\\jdk\\11").unwrap();
    let reloaded = YongSpec::load(&spec.render()).unwrap();

    assert_eq!(spec, reloaded);
    let versions = reloaded.get("java").unwrap().versions.as_ref().unwrap();
    assert_eq!(versions[0].version, "1\n2");
    assert_eq!(versions[0].home_path, "C:\\jdk\\11");
}

#[test]
fn empty_bins_round_trip() {
    let mut spec = YongSpec::load("").unwrap();
    spec.add_app("java", "java_home", Vec::new());
    let rendered = spec.render();

    assert_eq!(rendered, "[apps.java]\nhome_name = \"java_home\"\nbins = []\n");
    assert_eq!(YongSpec::load(&rendered).unwrap(), spec);
}
