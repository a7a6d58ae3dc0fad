use plier::{resolve_batch_path, PathError};

#[test]
fn main_test_batch_filename_combines_executables_directory_with_given_filename() {
    let actual = resolve_batch_path("path/to/binary.exe", "batch.sh").unwrap();

    assert_eq!(actual, "path/to/batch.sh");
}

#[test]
fn batch_path_for_bare_filename_fails() {
    let actual = resolve_batch_path("binary.exe", "batch.sh");

    assert_eq!(actual, Err(PathError::NoParentDirectory));
}

#[test]
fn batch_path_for_empty_path_fails() {
    let actual = resolve_batch_path("", "batch.sh");

    assert_eq!(actual, Err(PathError::NoParentDirectory));
}

#[test]
fn batch_path_for_bare_root_fails() {
    let actual = resolve_batch_path("/", "batch.sh");

    assert_eq!(actual, Err(PathError::NoParentDirectory));
}

#[test]
fn batch_path_for_absolute_path() {
    let actual = resolve_batch_path("/usr/local/bin/plier", "batch.bat").unwrap();

    assert_eq!(actual, "/usr/local/bin/batch.bat");
}

#[test]
fn batch_path_for_file_directly_under_root() {
    let actual = resolve_batch_path("/plier", "batch.bat").unwrap();

    assert_eq!(actual, "/batch.bat");
}
