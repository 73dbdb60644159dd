//! Tests for path handling and the templating engine.

use batchcensor::relpath::RelPath;
use batchcensor::utils::{as_uppercase_radix, path_enumeration, path_file_prefix,
    path_file_suffix};

#[test]
fn test_path_enumeration() {
    let path = RelPath::from_str("foo/bar/$");
    let path = path_enumeration(0, &path);
    assert_eq!("foo/bar/1", path.as_string());

    let path = RelPath::from_str("foo/bar$$$/foo");
    let path = path_enumeration(2, &path);
    assert_eq!("foo/bar003/foo", path.as_string());

    let path = RelPath::from_str("foo/bar$@/foo");
    let path = path_enumeration(0, &path);
    assert_eq!("foo/barAA/foo", path.as_string());
}

#[test]
fn test_uppercase_radix() {
    assert_eq!("AA", as_uppercase_radix(0));
    assert_eq!("AB", as_uppercase_radix(1));
    assert_eq!("AZ", as_uppercase_radix(25));
    assert_eq!("BA", as_uppercase_radix(26));
    assert_eq!("BB", as_uppercase_radix(27));
    assert_eq!("BZ", as_uppercase_radix(51));
    assert_eq!("CA", as_uppercase_radix(52));
}

#[test]
fn enumeration_without_token_is_identity() {
    let path = RelPath::from_str("foo/bar.wav");
    let path = path_enumeration(7, &path);
    assert_eq!("foo/bar.wav", path.as_string());
}

#[test]
fn enumeration_wide_index() {
    // The decimal index is never truncated by a narrow run.
    let path = RelPath::from_str("v$");
    let path = path_enumeration(123, &path);
    assert_eq!("v124", path.as_string());
}

#[test]
fn prefix_and_suffix_insertion() {
    let path = RelPath::from_str("dir/name.wav");
    let with_pre = path_file_prefix(Some("pre_"), &path);
    assert_eq!("dir/pre_name.wav", with_pre.as_string());
    let with_suf = path_file_suffix(Some("_suf"), &with_pre);
    assert_eq!("dir/pre_name.wav_suf", with_suf.as_string());
    let untouched = path_file_prefix(None, &path);
    assert_eq!("dir/name.wav", untouched.as_string());
}

#[test]
fn relpath_name_parts() {
    let path = RelPath::from_str("a/b/stem.ext");
    assert_eq!(Some("stem.ext".chars().collect::<Vec<char>>()), path.file_name());
    assert_eq!(Some("stem".chars().collect::<Vec<char>>()), path.file_stem());
    assert_eq!(Some("ext".chars().collect::<Vec<char>>()), path.extension());

    let dotfile = RelPath::from_str("a/.hidden");
    assert_eq!(Some(".hidden".chars().collect::<Vec<char>>()), dotfile.file_stem());
    assert_eq!(None, dotfile.extension());

    let empty = RelPath::from_str("");
    assert_eq!(None, empty.file_name());
}

#[test]
fn relpath_with_extension() {
    let path = RelPath::from_str("a/b/name.wav");
    let ext: Vec<char> = "oac".chars().collect();
    assert_eq!("a/b/name.oac", path.with_extension(&ext).as_string());
    let bare = RelPath::from_str("a/b/name");
    assert_eq!("a/b/name.oac", bare.with_extension(&ext).as_string());
}
