use raw::error::RawError;
use raw::remote::{
    packages_to_update, plan_get, remote_archive_url_of, upgrade_step, version_release_differ_of, GetAction,
    UpgradeStep,
};

const INDEX: &str = "base/nano/Pkgfile|9.0|1|abc\nextra/htop/Pkgfile|3.5.1|2|def\n";

#[test]
fn remote_url_escapes_hash() {
    assert_eq!(
        remote_archive_url_of("https://r", "extra", "htop", "3.5.1", "2"),
        "https://r/extra/htop/htop.3.5.1%232.raw.tar.gz"
    );
}

#[test]
fn get_downloads_from_repository() {
    assert_eq!(
        plan_get(INDEX, "htop", "https://r", &None),
        Ok(GetAction::Download("https://r/extra/htop/htop.3.5.1%232.raw.tar.gz".to_string()))
    );
}

#[test]
fn get_prefers_differing_local_build() {
    let local = Some(("3.5.0".to_string(), "1".to_string()));
    assert_eq!(plan_get(INDEX, "htop", "https://r", &local), Ok(GetAction::InstallLocal));
    let same = Some(("3.5.1".to_string(), "2".to_string()));
    assert!(matches!(plan_get(INDEX, "htop", "https://r", &same), Ok(GetAction::Download(_))));
}

#[test]
fn get_errors() {
    assert_eq!(plan_get(INDEX, "vim", "u", &None), Err(RawError::PackageNotFound));
    assert_eq!(plan_get(INDEX, "htop/Pkg", "u", &None), Err(RawError::NoSuchPackage));
    assert_eq!(plan_get("x/vim/Pkgfile\n", "vim", "u", &None), Err(RawError::VersionMissing));
    assert_eq!(plan_get("/vim/Pkgfile|1|2\n", "vim", "u", &None), Ok(GetAction::Download("u//vim/vim.1%232.raw.tar.gz".to_string())));
}

#[test]
fn version_comparisons() {
    assert!(version_release_differ_of("1", "2", "1", "3"));
    assert!(!version_release_differ_of("1", "2", "1", "2"));
}

fn strings(v: &[&str]) -> Vec<String> {
    v.iter().map(|s| s.to_string()).collect()
}

#[test]
fn changelog_lists_installed_packages_with_other_versions() {
    let installed = strings(&["htop", "glibc", "nano"]);
    let metas = strings(&["Nhtop\nV3.5.0\nr2\n", "Nglibc\nV2.40\nr1\n", "Nnano\nV9.0\nr1\n"]);
    let index = "core/glibc/Pkgfile|2.40|1|a\nextra/htop/Pkgfile|3.5.1|2|b\nextra/vim/Pkgfile|9|1|c\nbase/nano/Pkgfile|9.0|2|d\n";
    assert_eq!(packages_to_update(index, &installed, &metas), Ok(strings(&["htop", "nano"])));
    assert_eq!(packages_to_update("", &installed, &metas), Ok(vec![]));
}

#[test]
fn changelog_reports_the_first_error() {
    let installed = strings(&["htop"]);
    let metas = strings(&["Nhtop\nr2\n"]);
    assert_eq!(packages_to_update("junk\n", &installed, &metas), Err(RawError::NameMissing));
    assert_eq!(packages_to_update("x/htop/Pkgfile|1|2\n", &installed, &metas), Err(RawError::MetaFieldMissing('V')));
    let metas = strings(&["Nhtop\nV1\nr2\n"]);
    assert_eq!(packages_to_update("x/htop/Pkgfile\n", &installed, &metas), Err(RawError::VersionMissing));
    assert_eq!(packages_to_update("x/vim/Pkgfile\n", &installed, &metas), Ok(vec![]));
}

#[test]
fn upgrade_decisions() {
    let line = "extra/htop/Pkgfile|3.5.1|2|abc";
    let meta_old = "Nhtop\nV3.5.0\nr2\n";
    let meta_new = "Nhtop\nV3.5.1\nr2\n";
    assert_eq!(upgrade_step("   ", true, &None, meta_old), Ok(UpgradeStep::Skip));
    assert_eq!(upgrade_step(line, false, &None, ""), Ok(UpgradeStep::Skip));
    assert_eq!(upgrade_step(line, true, &None, meta_old), Ok(UpgradeStep::Fetch));
    assert_eq!(upgrade_step(line, true, &None, meta_new), Ok(UpgradeStep::UpToDate));
    let local_old = Some(("3.5.0".to_string(), "2".to_string()));
    assert_eq!(upgrade_step(line, true, &local_old, meta_old), Ok(UpgradeStep::ReinstallLocal));
    let local_same = Some(("3.5.1".to_string(), "2".to_string()));
    assert_eq!(upgrade_step(line, true, &local_same, meta_old), Ok(UpgradeStep::Fetch));
    // a version and release that only agree when written one after the other still differ
    assert_eq!(upgrade_step("x/a/Pkgfile|1.2|3|s", true, &None, "V1.23\nr\n"), Ok(UpgradeStep::Fetch));
}

#[test]
fn upgrade_errors() {
    assert_eq!(upgrade_step("junk", true, &None, ""), Err(RawError::NameMissing));
    assert_eq!(upgrade_step("x/a/Pkgfile|1", true, &None, ""), Err(RawError::ReleaseMissing));
    assert_eq!(upgrade_step("x/a/Pkgfile|1|2", true, &None, "Nname\n"), Err(RawError::MetaFieldMissing('V')));
}
