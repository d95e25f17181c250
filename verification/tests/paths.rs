use resumable_jobs::file_identifier::orphan_path_filters;
use resumable_jobs::file_identifier::CHUNK_SIZE;
use resumable_jobs::location::ensure_sub_path_is_in_location;
use resumable_jobs::location::path_eq;
use resumable_jobs::location::FilePathError;
use resumable_jobs::location::IsolatedFilePathData;

fn strs(xs: &[&str]) -> Vec<String> {
    xs.iter().map(|x| x.to_string()).collect()
}

#[test]
fn sub_path_joins_onto_location_root() {
    let full = ensure_sub_path_is_in_location(&strs(&["mnt", "data"]), &strs(&["a", "b"]))
        .unwrap();
    assert_eq!(full, strs(&["mnt", "data", "a", "b"]));
}

#[test]
fn traversal_components_escape_the_root() {
    for bad in [&["..", "a"][..], &["a", ".."][..], &["."][..], &[""][..]] {
        let r = ensure_sub_path_is_in_location(&strs(&["mnt"]), &strs(bad));
        assert_eq!(r, Err(FilePathError::PathNotInLocation));
    }
}

#[test]
fn isolation_strips_the_location_root() {
    let iso = IsolatedFilePathData::new(
        3,
        &strs(&["mnt", "data"]),
        &strs(&["mnt", "data", "a", "b"]),
        true,
    )
    .unwrap();
    assert_eq!(iso.location_id, 3);
    assert!(iso.is_dir);
    assert_eq!(iso.path, strs(&["a", "b"]));
    assert_eq!(iso.materialized_path_for_children().unwrap(), strs(&["a", "b"]));
}

#[test]
fn isolation_refuses_a_path_outside_the_root() {
    let r = IsolatedFilePathData::new(3, &strs(&["mnt", "data"]), &strs(&["usr", "a"]), true);
    assert!(matches!(r, Err(FilePathError::PathNotInLocation)));
    let short = IsolatedFilePathData::new(3, &strs(&["mnt", "data"]), &strs(&["mnt"]), true);
    assert!(matches!(short, Err(FilePathError::PathNotInLocation)));
}

#[test]
fn a_file_has_no_children_key() {
    let iso = IsolatedFilePathData { location_id: 1, path: strs(&["a"]), is_dir: false };
    assert!(iso.materialized_path_for_children().is_none());
}

#[test]
fn path_equality_goes_by_contents() {
    assert!(path_eq(&strs(&["a", "b"]), &strs(&["a", "b"])));
    assert!(!path_eq(&strs(&["a", "b"]), &strs(&["a"])));
    assert!(!path_eq(&strs(&["a", "b"]), &strs(&["a", "c"])));
}

#[test]
fn orphan_filter_carries_scope_and_cursor() {
    let iso = IsolatedFilePathData { location_id: 1, path: strs(&["photos"]), is_dir: true };
    let f = orphan_path_filters(7, Some(42), &iso);
    assert_eq!(f.location_id, 7);
    assert_eq!(f.cursor, Some(42));
    assert_eq!(f.materialized_path, strs(&["photos"]));
    let g = orphan_path_filters(7, None, &iso);
    assert_eq!(g.cursor, None);
    assert_eq!(CHUNK_SIZE, 100);
}
