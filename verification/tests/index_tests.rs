use raw::error::RawError;
use raw::index::{
    index_checksum_of, index_entry_name_of, index_field_of, index_line_for_of, index_line_of,
    index_version_release_of, line_with_dir_of, package_dir_of, package_key_of, pkgfile_dir_of,
    pkgfile_index_line_of, pkgfile_readable, relative_entry_of, search_index_of, tree_prefix_of,
};

const INDEX: &str = "base/nano/Pkgfile|9.0|1|abc123\nextra/htop/Pkgfile|3.5.1|2|def456\n";

#[test]
fn index_line_round_trip_on_values() {
    let l = index_line_of("extra/htop/Pkgfile", "3.5.1", "2", "def456");
    assert_eq!(l, "extra/htop/Pkgfile|3.5.1|2|def456");
    assert_eq!(index_version_release_of(&l), Ok(("3.5.1".to_string(), "2".to_string())));
    assert_eq!(index_field_of(&l, 3), Some("def456".to_string()));
    assert_eq!(index_field_of(&l, 4), None);
}

#[test]
fn checksum_lookup() {
    assert_eq!(index_checksum_of(INDEX, "htop"), Ok("def456".to_string()));
    assert_eq!(index_checksum_of(INDEX, "vim"), Err(RawError::NotInIndex));
    assert_eq!(index_checksum_of("x/vim/Pkgfile|1|1\n", "vim"), Err(RawError::ChecksumMissing));
}

#[test]
fn lines_and_directories() {
    assert_eq!(index_line_for_of(INDEX, "nano"), Some("base/nano/Pkgfile|9.0|1|abc123".to_string()));
    assert_eq!(package_dir_of(INDEX, "htop"), Some("extra/htop".to_string()));
    assert_eq!(package_dir_of(INDEX, "vim"), None);
    assert_eq!(line_with_dir_of(INDEX, "htop"), Some("extra/htop/Pkgfile|3.5.1|2|def456".to_string()));
    assert_eq!(pkgfile_dir_of("extra/htop/Pkgfile|1"), Some("extra/htop".to_string()));
}

#[test]
fn entry_names_and_versions() {
    assert_eq!(index_entry_name_of("extra/htop/Pkgfile|3|1|x"), Ok("htop".to_string()));
    assert_eq!(index_entry_name_of("htop|3|1"), Err(RawError::NameMissing));
    assert_eq!(index_entry_name_of("htop/Pkgfile|3|1"), Err(RawError::NameMissing));
    assert_eq!(index_version_release_of("a/b/Pkgfile"), Err(RawError::VersionMissing));
    assert_eq!(index_version_release_of("a/b/Pkgfile|1"), Err(RawError::ReleaseMissing));
}

#[test]
fn package_keys() {
    assert_eq!(package_key_of("htop.3.5.1#1.raw.tar.gz"), "htop");
    assert_eq!(package_key_of("htop"), "htop");
}

#[test]
fn pkgfile_values_for_the_index() {
    let p = "description=\" x \"\nname=htop\nversion=\"3.5.1\"\nrelease=2\n";
    assert!(pkgfile_readable(p));
    assert_eq!(pkgfile_index_line_of("extra/htop/Pkgfile", p, "none"), "extra/htop/Pkgfile|3.5.1|2|none");
}

#[test]
fn pkgfile_defaults() {
    let p = "name=htop\n";
    assert!(pkgfile_readable(p));
    assert_eq!(pkgfile_index_line_of("e/htop/Pkgfile", p, "s"), "e/htop/Pkgfile|unknown|1|s");
}

#[test]
fn unreadable_pkgfiles() {
    assert!(!pkgfile_readable("version = 1\n"));
    assert!(!pkgfile_readable("version=\"1\n"));
}

#[test]
fn search_and_tree_paths() {
    assert_eq!(search_index_of(INDEX, "htop"), Some("extra/htop/Pkgfile|3.5.1|2|def456".to_string()));
    assert_eq!(search_index_of(INDEX, "vim"), None);
    assert_eq!(tree_prefix_of("/srv/onyx"), "/srv/onyx/");
    assert_eq!(tree_prefix_of("/srv/onyx/"), "/srv/onyx/");
    assert_eq!(relative_entry_of("/srv/onyx/extra/htop/Pkgfile", " /srv/onyx/ "), Some("extra/htop/Pkgfile".to_string()));
    assert_eq!(relative_entry_of("/other/x", "/srv/onyx/"), None);
}
