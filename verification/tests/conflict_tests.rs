use raw::conflict::{conflict_candidates, is_conflict_exempt_path, new_path_candidates_of};

fn strings(v: &[&str]) -> Vec<String> {
    v.iter().map(|s| s.to_string()).collect()
}

#[test]
fn shared_entries_are_candidates() {
    let footprint = "usr/bin/htop\netc/htoprc\nusr/share/info/dir\nusr/lib/libx.so -> liby.so\n";
    let installed = "usr/bin/htop\netc/htoprc\nusr/share/info/dir\nusr/lib/libx.so\nusr/bin/other\n\n";
    assert_eq!(conflict_candidates(footprint, installed), strings(&["usr/bin/htop", "usr/lib/libx.so"]));
}

#[test]
fn new_paths_to_check() {
    let footprint = "usr/bin/htop\netc/htoprc\n\nusr/share/info/dir\n";
    assert_eq!(new_path_candidates_of(footprint), strings(&["/usr/bin/htop", "/"]));
}

#[test]
fn exempt_paths() {
    assert!(is_conflict_exempt_path("/etc/passwd"));
    assert!(is_conflict_exempt_path("/usr/share/info/dir"));
    assert!(!is_conflict_exempt_path("/usr/bin/etc"));
}
