use plier::{resolve_batch_path, PlierSpec};

#[test]
fn lib_load_returns_empty_apps_map_when_input_is_empty() {
    let spec = PlierSpec::load("").unwrap();

    assert_eq!(spec.len(), 0);
}

#[test]
fn lib_load_returns_spec_with_missing_versions_when_versions_are_missing() {
    let spec = PlierSpec::load(
        "[apps.java]\nhome_name = \"java_home\"\nbins = [\"bin\"]\n",
    )
    .unwrap();

    assert_eq!(spec.get("java").unwrap().home_name, "java_home")
}

#[test]
fn lib_load_returns_spec_with_versions_when_they_exist() {
    let spec = PlierSpec::load(
        "[apps.python]\nhome_name = 'pythonhome'\nbins = ['.', 'Scripts']\n\n[[apps.python.versions]]\nversion = \"3.7.0\"\nhome_path = \"/path/to/python/3.7.0\"\n",
    )
    .unwrap();
    let versions = spec.get("python").unwrap().versions.as_ref();

    assert_eq!(versions.unwrap()[0].version, "3.7.0");
}

#[test]
fn lib_fmt_converts_spec_to_string() {
    let doc = "[apps.elixir]\nhome_name = \"elixir_home\"\nbins = [\"bin\"]\n\n[[apps.elixir.versions]]\nversion = \"1.10.3\"\nhome_path = \"/path/to/elixir/1.10.3\"\n";
    let spec = PlierSpec::load(doc).unwrap();

    assert_eq!(spec.render(), doc)
}

#[test]
fn load_spec_from_invalid_spec_string() {
    let actual = PlierSpec::load(
        "[hello]\nbins = ['sbin']\n\n[world]\ngreeting = ['what?']\n",
    );

    assert!(actual.is_err());
}

#[test]
fn plier_test_batch_filename_combines_executables_directory_with_given_filename() {
    let actual = resolve_batch_path("path/to/binary.exe", "batch.sh").unwrap();

    assert_eq!(actual, "path/to/batch.sh");
}
