use raw::names::{
    archive_file_name_of, archive_version_release_of, built_version_release_of, first_built_of,
    first_raw_archive_of, hook_command_of, is_raw_archive_name, is_tarball_name, local_builds_of,
    package_name_of, some_entry_contains_of, url_file_name_of,
};
use raw::error::RawError;

fn strings(v: &[&str]) -> Vec<String> {
    v.iter().map(|s| s.to_string()).collect()
}

#[test]
fn archive_name_is_built_from_parts() {
    assert_eq!(archive_file_name_of("htop", "3.5.1", "1"), "htop.3.5.1#1.raw.tar.gz");
}

#[test]
fn archive_name_round_trip_on_values() {
    let f = archive_file_name_of("nano", "9.0", "2");
    assert_eq!(package_name_of(&f), Some("nano".to_string()));
    assert_eq!(archive_version_release_of(&f), Some(("9.0".to_string(), "2".to_string())));
    assert_eq!(built_version_release_of(&f), Some(("9.0".to_string(), "2".to_string())));
}

#[test]
fn package_name_is_text_before_first_dot() {
    assert_eq!(package_name_of("htop.3.5.1#1.raw.tar.gz"), Some("htop".to_string()));
    assert_eq!(package_name_of("nodot"), None);
}

#[test]
fn version_release_need_dot_and_hash() {
    assert_eq!(archive_version_release_of("htop.3.5.1"), None);
    assert_eq!(archive_version_release_of("htop#1"), None);
    assert_eq!(archive_version_release_of("htop.3#1"), None);
    assert_eq!(built_version_release_of("htop.3#1.tar"), None);
}

#[test]
fn raw_and_tarball_names() {
    assert!(is_raw_archive_name("a.1#1.raw.tar.gz"));
    assert!(!is_raw_archive_name("a.tar.gz"));
    assert!(is_tarball_name("a.tar.gz"));
    assert!(is_tarball_name("a.tgz"));
    assert!(!is_tarball_name("a.zip"));
}

#[test]
fn download_name_is_last_url_part() {
    assert_eq!(url_file_name_of("https://example.org/dist/nano-9.0.tar.xz"), "nano-9.0.tar.xz");
    assert_eq!(url_file_name_of("https://example.org/dir/"), "");
    assert_eq!(url_file_name_of("plain"), "plain");
}

#[test]
fn hook_commands() {
    assert_eq!(hook_command_of("htop", "post-install"), "chmod u+x htop.post-install && ./htop.post-install");
}

#[test]
fn local_builds_lists_raw_archives() {
    let entries = strings(&["Pkgfile", "htop.3.5.1#2.raw.tar.gz", "htop.footprint"]);
    assert_eq!(local_builds_of(&entries), Ok(vec![("3.5.1".to_string(), "2".to_string())]));
    assert_eq!(local_builds_of(&strings(&["Pkgfile"])), Ok(vec![]));
}

#[test]
fn local_builds_reports_malformed_names() {
    let entries = strings(&["x.raw.y"]);
    assert_eq!(local_builds_of(&entries), Err(RawError::MalformedArchiveName));
}

#[test]
fn first_built_takes_first_raw_archive() {
    let entries = strings(&["Pkgfile", "htop.3.5.1#2.raw.tar.gz", "htop.3.5.0#1.raw.tar.gz"]);
    assert_eq!(first_built_of(&entries), Ok(("3.5.1".to_string(), "2".to_string())));
    assert_eq!(first_built_of(&strings(&["Pkgfile"])), Err(RawError::NoPackageGenerated));
    assert_eq!(first_raw_archive_of(&entries), Some("htop.3.5.1#2.raw.tar.gz".to_string()));
    assert_eq!(first_raw_archive_of(&strings(&["Pkgfile"])), None);
}

#[test]
fn entries_containing() {
    let entries = strings(&["Pkgfile", "htop.3#1.raw.tar.gz"]);
    assert!(some_entry_contains_of(&entries, "htop"));
    assert!(!some_entry_contains_of(&entries, "nano"));
}
