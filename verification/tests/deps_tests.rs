use raw::deps::{installs_from_source_of, DependencyWalk};

fn strings(v: &[&str]) -> Vec<String> {
    v.iter().map(|s| s.to_string()).collect()
}

#[test]
fn walk_visits_each_package_once() {
    let mut w = DependencyWalk::new("htop");
    assert_eq!(w.next_package(), Some("htop".to_string()));
    assert_eq!(w.push_dependencies(&strings(&["ncurses", "glibc"])), strings(&["ncurses", "glibc"]));
    assert_eq!(w.next_package(), Some("glibc".to_string()));
    assert_eq!(w.push_dependencies(&strings(&[])), Vec::<String>::new());
    assert_eq!(w.next_package(), Some("ncurses".to_string()));
    assert_eq!(w.push_dependencies(&strings(&["glibc", "htop"])), Vec::<String>::new());
    assert_eq!(w.next_package(), None);
    assert_eq!(w.dependencies(), strings(&["glibc", "ncurses"]));
}

#[test]
fn duplicates_on_the_stack_are_skipped() {
    let mut w = DependencyWalk::new("a");
    assert_eq!(w.next_package(), Some("a".to_string()));
    assert_eq!(w.push_dependencies(&strings(&["b", "b"])), strings(&["b", "b"]));
    assert_eq!(w.next_package(), Some("b".to_string()));
    assert_eq!(w.push_dependencies(&strings(&[])), Vec::<String>::new());
    assert_eq!(w.next_package(), None);
    assert_eq!(w.dependencies(), strings(&["b"]));
}

#[test]
fn transitive_dependencies_are_found() {
    // nano -> ncurses -> glibc, nano -> file -> zlib, glibc; zlib -> glibc
    let graph = |p: &str| -> Vec<String> {
        match p {
            "nano" => strings(&["ncurses", "file"]),
            "ncurses" => strings(&["glibc"]),
            "file" => strings(&["zlib", "glibc"]),
            "zlib" => strings(&["glibc"]),
            _ => vec![],
        }
    };
    let mut w = DependencyWalk::new("nano");
    while let Some(p) = w.next_package() {
        w.push_dependencies(&graph(&p));
    }
    let mut found = w.dependencies();
    found.sort();
    assert_eq!(found, strings(&["file", "glibc", "ncurses", "zlib"]));
}

#[test]
fn a_package_without_dependencies_has_none() {
    let mut w = DependencyWalk::new("glibc");
    assert_eq!(w.dependencies(), Vec::<String>::new());
    assert_eq!(w.next_package(), Some("glibc".to_string()));
    w.push_dependencies(&[]);
    assert_eq!(w.next_package(), None);
    assert_eq!(w.dependencies(), Vec::<String>::new());
}

#[test]
fn source_install_setting() {
    assert!(installs_from_source_of("x\nmode=source\n"));
    assert!(!installs_from_source_of("mode=binary\nsource=/srv\n"));
}
