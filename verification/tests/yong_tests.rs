use plier::YongSpec;

#[test]
fn add_app_with_no_versions() {
    let mut spec = YongSpec::load("").unwrap();
    spec.add_app("java", "java_home", vec!["bin".to_string()]);

    assert_eq!(spec.get("java").unwrap().home_name, "java_home");
    assert_eq!(spec.get("java").unwrap().bins, &["bin".to_string()]);
}

#[test]
fn load_returns_empty_apps_map_when_input_is_empty() {
    let spec = YongSpec::load("").unwrap();

    assert_eq!(spec.len(), 0);
}

#[test]
fn load_returns_spec_with_missing_versions_when_versions_are_missing() {
    let spec = YongSpec::load(
        "[apps.java]\nhome_name = \"java_home\"\nbins = [\"bin\"]\n",
    )
    .unwrap();

    assert_eq!(spec.get("java").unwrap().home_name, "java_home")
}

#[test]
fn load_returns_spec_with_versions_when_they_exist() {
    let spec = YongSpec::load(
        "[apps.python]\nhome_name = 'pythonhome'\nbins = ['.', 'Scripts']\n\n[[apps.python.versions]]\nversion = \"3.7.0\"\nhome_path = \"/path/to/python/3.7.0\"\n",
    )
    .unwrap();
    let versions = spec.get("python").unwrap().versions.as_ref();

    assert_eq!(versions.unwrap()[0].version, "3.7.0");
}

#[test]
fn fmt_converts_spec_to_string() {
    let mut spec = YongSpec::load("").unwrap();
    spec.add_app("elixir", "elixir_home", vec!["bin".to_string()]);
    spec.upsert_version("elixir", "1.10.3", "/path/to/elixir/1.10.3").unwrap();

    assert_eq!(
        spec.render(),
        "[apps.elixir]\nhome_name = \"elixir_home\"\nbins = [\"bin\"]\n\n[[apps.elixir.versions]]\nversion = \"1.10.3\"\nhome_path = \"/path/to/elixir/1.10.3\"\n"
    )
}

#[test]
fn add_version_to_existing_app_that_has_no_existing_versions() {
    let mut spec = YongSpec::load("").unwrap();
    spec.add_app("java", "java_home", vec!["bin".to_string()]);
    spec.upsert_version("java", "11", "/path/to/java/11").unwrap();

    assert_eq!(
        spec.render(),
        "[apps.java]\nhome_name = \"java_home\"\nbins = [\"bin\"]\n\n[[apps.java.versions]]\nversion = \"11\"\nhome_path = \"/path/to/java/11\"\n"
    )
}

#[test]
fn add_version_to_existing_app_that_has_existing_versions() {
    let mut spec = YongSpec::load("").unwrap();
    spec.add_app("java", "java_home", vec!["bin".to_string()]);
    spec.upsert_version("java", "11", "/path/to/java/11").unwrap();
    spec.upsert_version("java", "14", "/path/to/java/14").unwrap();

    assert_eq!(
        spec.render(),
        "[apps.java]\nhome_name = \"java_home\"\nbins = [\"bin\"]\n\n[[apps.java.versions]]\nversion = \"11\"\nhome_path = \"/path/to/java/11\"\n\n[[apps.java.versions]]\nversion = \"14\"\nhome_path = \"/path/to/java/14\"\n"
    )
}

#[test]
fn add_duplicate_version_overrides_previous_setup() {
    let mut spec = YongSpec::load("").unwrap();
    spec.add_app("node", "node_home", vec![".".to_string()]);
    spec.upsert_version("node", "12.18.2", "/path/to/node/12.18.2").unwrap();
    spec.upsert_version("node", "12.18.2", "/alt/path/to/node/12.18.2").unwrap();

    assert_eq!(
        spec.render(),
        "[apps.node]\nhome_name = \"node_home\"\nbins = [\".\"]\n\n[[apps.node.versions]]\nversion = \"12.18.2\"\nhome_path = \"/alt/path/to/node/12.18.2\"\n"
    )
}
