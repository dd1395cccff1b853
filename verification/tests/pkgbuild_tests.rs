use raw::error::RawError;
use raw::pkgbuild::{
    build_command_of, build_style_path, footprint_changes, footprint_entry_of, is_patch_of,
    is_remote_source_of, keeps_sources_of, logged_command_of, parse_pkgfile_vars,
    prebuilt_usable_of, source_list, style_line_present_of,
};

const PREFIX: &str = "fakeroot bash -eo pipefail -c 'source Pkgfile && PKG=$(pwd)/pkg && SRC=$(pwd)/work && cd work && ";

#[test]
fn pkgfile_variables() {
    let out = "9.0\nnano\nalexis\n1\nA text editor\nncurses\nhttps://x/nano.tar.xz\nhtop make\n";
    let v = parse_pkgfile_vars(out).unwrap();
    assert_eq!(v.version, "9.0");
    assert_eq!(v.name, "nano");
    assert_eq!(v.packager, "alexis");
    assert_eq!(v.release, "1");
    assert_eq!(v.description, "A text editor");
    assert_eq!(v.depends, "ncurses");
    assert_eq!(v.source, "https://x/nano.tar.xz");
    assert_eq!(v.makedepends, vec!["htop".to_string(), "make".to_string()]);
}

#[test]
fn pkgfile_variables_missing() {
    assert_eq!(parse_pkgfile_vars("9.0\nnano\n"), Err(RawError::MissingPkgfileVariable(2)));
    assert_eq!(parse_pkgfile_vars(""), Err(RawError::MissingPkgfileVariable(0)));
}

#[test]
fn keeping_sources() {
    assert!(keeps_sources_of("name=x\n"));
    assert!(!keeps_sources_of("name=x\nRAW_KEEP_SOURCES=false\n"));
    assert!(keeps_sources_of("  RAW_KEEP_SOURCES=false\n"));
}

#[test]
fn build_with_all_functions() {
    let p = "prepare() {\n}\nbuild() {\n}\npackage() {\n}\n";
    assert_eq!(
        build_command_of(p, false),
        Ok(format!("{}prepare && cd $SRC && build && cd $SRC && package'", PREFIX))
    );
}

#[test]
fn build_only() {
    let p = "build() {\nmake\n}\n";
    assert_eq!(build_command_of(p, false), Ok(format!("{}build'", PREFIX)));
    assert_eq!(build_style_path(p), None);
}

#[test]
fn build_with_style() {
    let p = "name=htop\nbuild=make\npackage() {\n}\n";
    assert!(style_line_present_of(p));
    assert_eq!(build_style_path(p), Some("/etc/raw.d/make".to_string()));
    assert_eq!(
        build_command_of(p, true),
        Ok(format!("{}source /etc/raw.d/make && cd $SRC && package'", PREFIX))
    );
    assert_eq!(build_command_of(p, false), Err(RawError::NoBuildStyle("build=make".to_string())));
}

#[test]
fn build_with_default_style() {
    let p = "name=htop\nprepare() {\n}\n";
    assert_eq!(build_style_path(p), Some("/etc/raw.d/build-default".to_string()));
    assert_eq!(
        build_command_of(p, true),
        Ok(format!("{}prepare && cd $SRC && source /etc/raw.d/build-default'", PREFIX))
    );
    assert_eq!(build_command_of(p, false), Err(RawError::NoDefaultBuildStyle));
}

#[test]
fn missing_default_style_messages_follow_the_functions() {
    assert_eq!(build_command_of("name=a\nprepare() {\n}\npackage() {\n}\n", false), Err(RawError::NoDefaultBuildStyle));
    assert_eq!(build_command_of("name=a\npackage() {\n}\n", false), Err(RawError::NoDefaultBuildStyleSet));
    assert_eq!(build_command_of("name=a\n", false), Err(RawError::NoDefaultBuildStyleAvailable));
    assert_eq!(
        build_command_of("name=a\nprepare() {\n}\nbuild=cmake\n", false),
        Err(RawError::NoBuildStyle("build=cmake".to_string()))
    );
}

#[test]
fn misplaced_style_line() {
    assert!(!style_line_present_of("name=x # build=make\n"));
}

#[test]
fn logging() {
    assert_eq!(logged_command_of("make", "/home/a"), "make 2>&1 | tee -a /home/a/.local/share/raw/raw.log");
}

#[test]
fn footprint_entries() {
    assert_eq!(footprint_entry_of("/src/x/pkg/usr/bin/htop", "/src/x/pkg", None), Ok(Some("usr/bin/htop".to_string())));
    assert_eq!(footprint_entry_of("/src/x/pkg", "/src/x/pkg", None), Ok(None));
    assert_eq!(
        footprint_entry_of("/src/x/pkg/usr/lib/a.so", "/src/x/pkg", Some("b.so")),
        Ok(Some("usr/lib/a.so -> b.so".to_string()))
    );
    assert_eq!(footprint_entry_of("/elsewhere", "/src/x/pkg", None), Err(RawError::OutsidePackageDir));
}

#[test]
fn footprint_diff() {
    let (missing, added) = footprint_changes("usr\nusr/bin\nusr/bin/a\n", "usr\nusr/bin\nusr/bin/b\n");
    assert_eq!(missing, vec!["usr/bin/a".to_string()]);
    assert_eq!(added, vec!["usr/bin/b".to_string()]);
    let (m, a) = footprint_changes("usr\nusr/bin\n", "usr\nusr/bin\n");
    assert!(m.is_empty() && a.is_empty());
}

#[test]
fn sources() {
    assert_eq!(source_list(" a.tar.gz  https://x/b.tar.xz "), vec!["a.tar.gz".to_string(), "https://x/b.tar.xz".to_string()]);
    assert!(is_remote_source_of("https://x/b.tar.xz"));
    assert!(!is_remote_source_of("b.tar.xz"));
    assert!(is_patch_of("fix.patch.gz"));
    assert!(!is_patch_of("fix.patch"));
}

#[test]
fn prebuilt_makedepends() {
    let pkgfile = "name=htop\nversion=3.5.1\nrelease=2\n";
    assert_eq!(prebuilt_usable_of("htop.3.5.1#1.raw.tar.gz", pkgfile), Ok(true));
    assert_eq!(prebuilt_usable_of("htop.3.5.0#2.raw.tar.gz", pkgfile), Ok(true));
    assert_eq!(prebuilt_usable_of("htop.3.5.0#1.raw.tar.gz", pkgfile), Ok(false));
    assert_eq!(prebuilt_usable_of("htop", pkgfile), Err(RawError::MalformedArchiveName));
    assert_eq!(prebuilt_usable_of("htop.1#1.raw.tar.gz", "name=x\n"), Err(RawError::PkgfileVersionMissing));
    assert_eq!(prebuilt_usable_of("htop.1#1.raw.tar.gz", "version=1\n"), Err(RawError::PkgfileReleaseMissing));
}
