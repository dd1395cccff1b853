use raw::db::{
    blocks_removal_of, every_line_has_word_of, find_orphans,
    has_desktop_files_of, is_protected_path, libraries_of, owners_of, removable_paths,
};

fn strings(v: &[&str]) -> Vec<String> {
    v.iter().map(|s| s.to_string()).collect()
}

#[test]
fn orphans_are_packages_nobody_requires() {
    let pkgs = strings(&["glibc", "htop", "ncurses", "nano"]);
    let metas = strings(&["Nglibc\nR\n", "Nhtop\nRncurses glibc\n", "Nncurses\nRglibc\n", "Nnano\nRncurses\n"]);
    assert_eq!(find_orphans(&pkgs, &metas), strings(&["htop", "nano"]));
}

#[test]
fn leading_r_letters_are_stripped() {
    let pkgs = strings(&["a", "b"]);
    let metas = strings(&["RRb\n", "R\n"]);
    assert_eq!(find_orphans(&pkgs, &metas), strings(&["a"]));
}

#[test]
fn owners_of_a_path() {
    let names = strings(&["htop", "nano", "htop"]);
    let files = strings(&["usr/bin/htop\nusr/share/htop\n", "usr/bin/nano\n", "usr/bin/htop\n"]);
    assert_eq!(owners_of("usr/bin/htop", &names, &files), strings(&["htop"]));
    assert_eq!(owners_of("usr/bin", &names, &files), strings(&["htop", "nano"]));
    assert_eq!(owners_of("zzz", &names, &files), Vec::<String>::new());
}

#[test]
fn query_by_system_path() {
    let names = strings(&["htop", "nano"]);
    let files = strings(&["usr/bin/htop\nusr/share/man/man1/htop.1\n", "usr/bin/nano\n"]);
    assert_eq!(owners_of("/usr/bin/htop", &names, &files), strings(&["htop"]));
    assert_eq!(owners_of("/usr/bin/", &names, &files), strings(&["htop", "nano"]));
    assert_eq!(owners_of("/bin/htop", &names, &files), strings(&["htop"]));
    assert_eq!(owners_of("/usr/sbin/htop", &names, &files), Vec::<String>::new());
}

#[test]
fn library_listing() {
    let files = "usr/lib/libx.so\nusr/lib/security/pam_x.so\nusr/bin/x\n";
    assert_eq!(libraries_of(files, false), strings(&["usr/lib/libx.so"]));
    assert_eq!(libraries_of(files, true), strings(&["usr/lib/libx.so", "usr/lib/security/pam_x.so"]));
}

#[test]
fn removal_skips_protected_paths() {
    let files = "bin\nusr/bin/htop\netc/htoprc\nlib64\nusr/share/info/dir\nusr/lib/x.so -> y.so\n";
    assert!(every_line_has_word_of(files));
    assert_eq!(removable_paths(files), strings(&["/usr/bin/htop", "/usr/lib/x.so"]));
    assert!(is_protected_path("etc/x"));
    assert!(is_protected_path("sbin"));
    assert!(!is_protected_path("usr/sbin"));
}

#[test]
fn blank_footprint_lines_are_detected() {
    assert!(!every_line_has_word_of("usr/bin/x\n   \n"));
}

#[test]
fn removal_dependency_check() {
    assert!(blocks_removal_of("ncurses", "htop", "Nhtop\nRncurses\n"));
    assert!(!blocks_removal_of("ncurses", "nano", "Nnano\nR\n"));
    assert!(!blocks_removal_of("ncurses", "ncurses", "Nncurses\nRncurses\n"));
}

#[test]
fn dependents_with_longer_names_still_block_removal() {
    assert!(blocks_removal_of("gtk", "gtk3", "Ngtk3\nV3.24\nRgtk glib\n"));
    assert!(blocks_removal_of("pkg", "app", "Napp\nRpkg\n"));
    assert!(blocks_removal_of("META", "app", "Napp\nRMETA\n"));
}

#[test]
fn dependencies_starting_with_r_block_removal() {
    assert!(blocks_removal_of("R", "q", "RR\n"));
    assert!(blocks_removal_of("Rcpp", "q", "Nq\nRRcpp glibc\n"));
    assert!(blocks_removal_of("glibc", "q", "Nq\nRRcpp glibc\n"));
    assert!(!blocks_removal_of("cpp", "q", "Nq\nRRcpp\n"));
}

#[test]
fn only_r_line_names_block_removal() {
    assert!(!blocks_removal_of("gtk", "gtk3", "Ngtk3\nDa gtk based toolkit\nRglib\n"));
    assert!(!blocks_removal_of("gtk", "app", "Napp\nRgtk3 libgtkx\n"));
}

#[test]
fn desktop_files() {
    assert!(has_desktop_files_of("usr/share/applications/htop.desktop\n"));
    assert!(!has_desktop_files_of("usr/bin/htop\n"));
}
